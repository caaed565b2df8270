//! Where the programs look for their files: the candidate paths, tried in
//! order, and the choice among them once it is known which exist.

use vstd::prelude::*;
use crate::text::{push_str, push_decimal};

verus! {

fn text(s: &str) -> (r: String)
    ensures
        r@ == s@,
{
    s.to_owned()
}

fn joined(a: &str, b: &str) -> (r: String)
    ensures
        r@ == a@ + b@,
{
    let mut r = a.to_owned();
    push_str(&mut r, b);
    r
}

/// `Path::join` with a relative name: a separator is put in between unless
/// the base is empty or already ends with one.
pub open spec fn path_join(base: Seq<char>, name: Seq<char>) -> Seq<char> {
    if base.len() == 0 || base.last() == '/' {
        base + name
    } else {
        base + seq!['/'] + name
    }
}

/// The index of the first candidate that is marked, if any.
pub open spec fn first_marked(marks: Seq<bool>) -> Option<int>
    decreases marks.len(),
{
    if marks.len() == 0 {
        None
    } else {
        match first_marked(marks.drop_last()) {
            Some(i) => Some(i),
            None => if marks.last() {
                Some(marks.len() - 1)
            } else {
                None
            },
        }
    }
}

/// The first marked candidate.
pub fn first_existing(candidates: &Vec<String>, exists: &Vec<bool>) -> (r: Option<String>)
    requires
        exists@.len() == candidates@.len(),
    ensures
        match first_marked(exists@) {
            Some(i) => r matches Some(s) && s@ == candidates@[i]@,
            None => r is None,
        },
{
    let mut i: usize = 0;
    while i < candidates.len()
        invariant
            i <= candidates@.len(),
            exists@.len() == candidates@.len(),
            first_marked(exists@.take(i as int)) is None,
        decreases candidates.len() - i,
    {
        assert(exists@.take(i + 1).drop_last() =~= exists@.take(i as int));
        if exists[i] {
            proof {
                lemma_first_marked_prefix(exists@, i + 1);
            }
            return Some(candidates[i].clone());
        }
        i = i + 1;
    }
    assert(exists@.take(exists@.len() as int) =~= exists@);
    None
}

proof fn lemma_first_marked_prefix(marks: Seq<bool>, k: int)
    requires
        0 < k <= marks.len(),
        first_marked(marks.take(k - 1)) is None,
        marks[k - 1],
    ensures
        first_marked(marks) == Some(k - 1),
    decreases marks.len() - k,
{
    if k < marks.len() {
        assert(marks.drop_last().take(k - 1) =~= marks.take(k - 1));
        lemma_first_marked_prefix(marks.drop_last(), k);
    } else {
        assert(marks.take(k - 1) =~= marks.drop_last());
    }
}

/// The places the decision rule is looked for, relative to the working
/// directory, to the crate's directory and in `/tmp`.
pub open spec fn rule_file_candidates_spec(m: Seq<char>) -> Seq<Seq<char>> {
    seq![
        "data/rule/cashback.json"@,
        "./data/rule/cashback.json"@,
        m + "/../../data/rule/cashback.json"@,
        m + "/../../../data/rule/cashback.json"@,
        m + "/data/rule/cashback.json"@,
        "/tmp/data/rule/cashback.json"@,
    ]
}

/// The places the decision rule is looked for.
pub fn rule_file_candidates(manifest_dir: &str) -> (r: Vec<String>)
    ensures
        r.deep_view() == rule_file_candidates_spec(manifest_dir@),
{
    let mut v: Vec<String> = Vec::new();
    v.push(text("data/rule/cashback.json"));
    v.push(text("./data/rule/cashback.json"));
    v.push(joined(manifest_dir, "/../../data/rule/cashback.json"));
    v.push(joined(manifest_dir, "/../../../data/rule/cashback.json"));
    v.push(joined(manifest_dir, "/data/rule/cashback.json"));
    v.push(text("/tmp/data/rule/cashback.json"));
    assert(v.deep_view() =~= rule_file_candidates_spec(manifest_dir@));
    v
}

/// The decision rule's file: the first candidate that exists.
pub fn find_rule_file(manifest_dir: &str, exists: &Vec<bool>) -> (r: Option<String>)
    requires
        exists@.len() == 6,
    ensures
        match first_marked(exists@) {
            Some(i) => r matches Some(s) && s@ == rule_file_candidates_spec(manifest_dir@)[i],
            None => r is None,
        },
{
    let c = rule_file_candidates(manifest_dir);
    assert(c.deep_view().len() == c@.len());
    let r = first_existing(&c, exists);
    proof {
        if let Some(i) = first_marked(exists@) {
            lemma_first_marked_bound(exists@);
            assert(c.deep_view()[i] == c@[i]@);
        }
    }
    r
}

proof fn lemma_first_marked_bound(marks: Seq<bool>)
    ensures
        first_marked(marks) matches Some(i) ==> 0 <= i < marks.len(),
    decreases marks.len(),
{
    if marks.len() > 0 {
        lemma_first_marked_bound(marks.drop_last());
    }
}

/// The places reduce outputs are looked for.
pub open spec fn output_dir_candidates_spec(m: Seq<char>) -> Seq<Seq<char>> {
    seq![
        "data/output"@,
        "./data/output"@,
        m + "/../../data/output"@,
        m + "/../../../data/output"@,
        m + "/data/output"@,
        "/output"@,
        "/tmp/output"@,
    ]
}

/// The places reduce outputs are looked for.
pub fn output_dir_candidates(manifest_dir: &str) -> (r: Vec<String>)
    ensures
        r.deep_view() == output_dir_candidates_spec(manifest_dir@),
{
    let mut v: Vec<String> = Vec::new();
    v.push(text("data/output"));
    v.push(text("./data/output"));
    v.push(joined(manifest_dir, "/../../data/output"));
    v.push(joined(manifest_dir, "/../../../data/output"));
    v.push(joined(manifest_dir, "/data/output"));
    v.push(text("/output"));
    v.push(text("/tmp/output"));
    assert(v.deep_view() =~= output_dir_candidates_spec(manifest_dir@));
    v
}

/// The output directory: the first candidate that exists and is a
/// directory.
pub fn find_output_dir(manifest_dir: &str, is_dir: &Vec<bool>) -> (r: Option<String>)
    requires
        is_dir@.len() == 7,
    ensures
        match first_marked(is_dir@) {
            Some(i) => r matches Some(s) && s@ == output_dir_candidates_spec(manifest_dir@)[i],
            None => r is None,
        },
{
    let c = output_dir_candidates(manifest_dir);
    assert(c.deep_view().len() == c@.len());
    let r = first_existing(&c, is_dir);
    proof {
        if let Some(i) = first_marked(is_dir@) {
            lemma_first_marked_bound(is_dir@);
            assert(c.deep_view()[i] == c@[i]@);
        }
    }
    r
}

/// Where benefit files go: `benefit` under the output directory.
pub fn find_benefit_dir(base_output_dir: &str) -> (r: String)
    ensures
        r@ == path_join(base_output_dir@, "benefit"@),
{
    let mut r = base_output_dir.to_owned();
    let n = crate::text::chars_of(base_output_dir);
    if n.len() > 0 && n[n.len() - 1] != '/' {
        crate::text::push_char(&mut r, '/');
    }
    push_str(&mut r, "benefit");
    r
}

/// The places benefit files may go when the output directory has no
/// `benefit` directory and one cannot be made.
pub open spec fn benefit_dir_candidates_spec(m: Seq<char>) -> Seq<Seq<char>> {
    seq![
        "data/output/benefit"@,
        "./data/output/benefit"@,
        m + "/../../data/output/benefit"@,
        m + "/../../../data/output/benefit"@,
        m + "/data/output/benefit"@,
    ]
}

/// The places benefit files may go.
pub fn benefit_dir_candidates(manifest_dir: &str) -> (r: Vec<String>)
    ensures
        r.deep_view() == benefit_dir_candidates_spec(manifest_dir@),
{
    let mut v: Vec<String> = Vec::new();
    v.push(text("data/output/benefit"));
    v.push(text("./data/output/benefit"));
    v.push(joined(manifest_dir, "/../../data/output/benefit"));
    v.push(joined(manifest_dir, "/../../../data/output/benefit"));
    v.push(joined(manifest_dir, "/data/output/benefit"));
    assert(v.deep_view() =~= benefit_dir_candidates_spec(manifest_dir@));
    v
}

/// The fallback benefit directory: the first candidate whose parent
/// exists, else the first candidate.
pub fn resolve_benefit_dir_fallback(manifest_dir: &str, parent_exists: &Vec<bool>) -> (r: String)
    requires
        parent_exists@.len() == 5,
    ensures
        r@ == match first_marked(parent_exists@) {
            Some(i) => benefit_dir_candidates_spec(manifest_dir@)[i],
            None => "data/output/benefit"@,
        },
{
    let c = benefit_dir_candidates(manifest_dir);
    assert(c.deep_view().len() == c@.len());
    proof {
        lemma_first_marked_bound(parent_exists@);
    }
    match first_existing(&c, parent_exists) {
        Some(s) => {
            proof {
                let i = first_marked(parent_exists@)->0;
                assert(c.deep_view()[i] == c@[i]@);
            }
            s
        },
        None => {
            assert(c.deep_view()[0] == c@[0]@);
            c[0].clone()
        },
    }
}

/// The places a transaction file is looked for when its path cannot be
/// read as given: under `data/transaction/` by its file name and by its
/// path, the same from `./`, then, with a workspace root, the same under
/// the root and the root joined with path and file name.
pub open spec fn transaction_file_candidates_spec(path: Seq<char>, name: Seq<char>, root: Option<Seq<char>>) -> Seq<Seq<char>> {
    let base = seq![
        "data/transaction/"@ + name,
        "data/transaction/"@ + path,
        "./data/transaction/"@ + name,
        "./data/transaction/"@ + path,
    ];
    match root {
        None => base,
        Some(w) => base + seq![
            w + "/data/transaction/"@ + name,
            w + "/data/transaction/"@ + path,
            w + "/"@ + path,
            w + "/"@ + name,
        ],
    }
}

fn three(a: &str, b: &str, c: &str) -> (r: String)
    ensures
        r@ == a@ + b@ + c@,
{
    let mut r = a.to_owned();
    push_str(&mut r, b);
    push_str(&mut r, c);
    r
}

/// The places a transaction file is looked for (see
/// [`transaction_file_candidates_spec`]); `file_name` is the path's last
/// component, or the path when it has none.
pub fn transaction_file_candidates(path: &str, file_name: &str, workspace_root: Option<&str>) -> (r: Vec<String>)
    ensures
        r.deep_view() == transaction_file_candidates_spec(
            path@,
            file_name@,
            match workspace_root {
                Some(w) => Some(w@),
                None => None,
            },
        ),
{
    let mut v: Vec<String> = Vec::new();
    v.push(joined("data/transaction/", file_name));
    v.push(joined("data/transaction/", path));
    v.push(joined("./data/transaction/", file_name));
    v.push(joined("./data/transaction/", path));
    match workspace_root {
        Some(w) => {
            v.push(three(w, "/data/transaction/", file_name));
            v.push(three(w, "/data/transaction/", path));
            v.push(three(w, "/", path));
            v.push(three(w, "/", file_name));
        },
        None => {},
    }
    assert(v.deep_view() =~= transaction_file_candidates_spec(
        path@,
        file_name@,
        match workspace_root {
            Some(w) => Some(w@),
            None => None,
        },
    ));
    v
}

/// A path without its trailing separators (`trim_end_matches('/')`).
pub open spec fn without_trailing_slashes(s: Seq<char>) -> Seq<char>
    decreases s.len(),
{
    if s.len() > 0 && s.last() == '/' {
        without_trailing_slashes(s.drop_last())
    } else {
        s
    }
}

/// Where a reduce task's output of a job is looked for: under the job's
/// own directory in the output directory, then in the output directory.
pub open spec fn reduce_file_candidates_spec(output_dir: Seq<char>, job_id: u32, task: u32) -> Seq<Seq<char>> {
    let b = without_trailing_slashes(output_dir);
    seq![
        b + "/"@ + crate::text::decimal(job_id as nat) + "/mr-out-"@ + crate::text::decimal(task as nat),
        b + "/mr-out-"@ + crate::text::decimal(task as nat),
    ]
}

/// The places a reduce task's output is looked for, in order.
pub fn reduce_file_candidates(output_dir: &str, job_id: u32, task: u32) -> (r: Vec<String>)
    ensures
        r.deep_view() == reduce_file_candidates_spec(output_dir@, job_id, task),
{
    let v = crate::text::chars_of(output_dir);
    let mut n = v.len();
    assert(v@.take(n as int) =~= v@);
    while n > 0 && v[n - 1] == '/'
        invariant
            n <= v@.len(),
            without_trailing_slashes(v@.take(n as int)) == without_trailing_slashes(v@),
        decreases n,
    {
        assert(v@.take(n - 1) =~= v@.take(n as int).drop_last());
        assert(v@.take(n as int).last() == v@[n - 1]);
        n = n - 1;
    }
    assert(without_trailing_slashes(v@.take(n as int)) == v@.take(n as int));
    let mut base = String::new();
    let mut i: usize = 0;
    while i < n
        invariant
            i <= n <= v@.len(),
            base@ == v@.take(i as int),
        decreases n - i,
    {
        crate::text::push_char(&mut base, v[i]);
        assert(base@ =~= v@.take(i + 1));
        i = i + 1;
    }
    assert(v@.take(v@.len() as int) =~= v@);
    let mut first = base.clone();
    push_str(&mut first, "/");
    push_decimal(&mut first, job_id as u64);
    push_str(&mut first, "/mr-out-");
    push_decimal(&mut first, task as u64);
    let mut second = base.clone();
    push_str(&mut second, "/mr-out-");
    push_decimal(&mut second, task as u64);
    let mut r: Vec<String> = Vec::new();
    r.push(first);
    r.push(second);
    assert(r.deep_view() =~= reduce_file_candidates_spec(output_dir@, job_id, task));
    r
}

} // verus!
