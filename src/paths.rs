use vstd::prelude::*;

verus! {

/// `leaf` placed under directory `base`, with one `/` between them.
pub open spec fn join_spec(base: Seq<char>, leaf: Seq<char>) -> Seq<char> {
    if base.len() == 0 {
        leaf
    } else if base.last() == '/' {
        base + leaf
    } else {
        base + seq!['/'] + leaf
    }
}

/// Joins a relative `leaf` onto directory `base`.
pub fn join_path(base: &str, leaf: &str) -> (r: String)
    ensures
        r@ == join_spec(base@, leaf@),
{
    let n = base.unicode_len();
    if n == 0 {
        return String::from_str(leaf);
    }
    let mut s = String::from_str(base);
    if base.get_char(n - 1) != '/' {
        proof {
            reveal_strlit("/");
        }
        s.append("/");
    }
    s.append(leaf);
    s
}

/// Directory of run `run_id` under the runs root.
pub fn run_dir(root: &str, run_id: &str) -> (r: String)
    ensures
        r@ == join_spec(root@, run_id@),
{
    join_path(root, run_id)
}

/// The persisted state file of run `run_id`: `<root>/<run_id>/run.json`.
pub fn run_state_path(root: &str, run_id: &str) -> (r: String)
    ensures
        r@ == join_spec(join_spec(root@, run_id@), "run.json"@),
{
    let d = run_dir(root, run_id);
    join_path(d.as_str(), "run.json")
}

/// Where a state file is written before it is renamed over `path`.
pub fn tmp_path(path: &str) -> (r: String)
    ensures
        r@ == path@ + ".tmp"@,
{
    let mut s = String::from_str(path);
    s.append(".tmp");
    s
}

/// Cached video of cache key `key`: `<base>/video_cache/<key>.mp4`.
pub fn cache_path(base: &str, key: &str) -> (r: String)
    ensures
        r@ == join_spec(join_spec(base@, "video_cache"@), key@ + ".mp4"@),
{
    let dir = join_path(base, "video_cache");
    let mut file = String::from_str(key);
    file.append(".mp4");
    join_path(dir.as_str(), file.as_str())
}

} // verus!
