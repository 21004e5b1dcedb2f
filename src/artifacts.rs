use crate::run_state::str_eq;
use vstd::prelude::*;

verus! {

/// The free-form artifacts of a run, addressed by dot paths: each entry is a
/// normalized path and the JSON text of the value stored there. A path and
/// its extensions never both hold a value, as in a tree.
#[derive(Debug, Clone)]
pub struct Artifacts {
    pub entries: Vec<(String, String)>,
}

/// `path` with empty segments dropped (`.a..b.` reads as `a.b`).
pub open spec fn normalized(s: Seq<char>) -> Seq<char>
    decreases s.len(),
{
    if s.len() == 0 {
        Seq::empty()
    } else {
        let r = normalized(s.drop_last());
        let c = s.last();
        if c == '.' {
            r
        } else if s.len() >= 2 && s[s.len() - 2] == '.' && r.len() > 0 {
            r + seq!['.', c]
        } else {
            r.push(c)
        }
    }
}

/// `p` names an object that holds `q`: `q` is `p`, a dot, and more.
pub open spec fn is_segment_prefix(p: Seq<char>, q: Seq<char>) -> bool {
    p.len() < q.len() && q.take(p.len() as int) == p && q[p.len() as int] == '.'
}

/// Setting one of the two paths replaces what the other holds.
pub open spec fn overlaps(p: Seq<char>, q: Seq<char>) -> bool {
    p == q || is_segment_prefix(p, q) || is_segment_prefix(q, p)
}

/// Drops empty segments from a dot path.
pub fn normalize_path(path: &str) -> (r: String)
    ensures
        r@ == normalized(path@),
{
    let n = path.unicode_len();
    let mut out = String::new();
    let mut i: usize = 0;
    proof {
        reveal_strlit(".");
        assert(path@.take(0) =~= Seq::<char>::empty());
    }
    while i < n
        invariant
            n == path@.len(),
            i <= n,
            out@ == normalized(path@.take(i as int)),
        decreases n - i,
    {
        let c = path.get_char(i);
        let ghost before = out@;
        proof {
            reveal_strlit(".");
            assert(path@.take(i + 1).drop_last() =~= path@.take(i as int));
            assert(path@.take(i + 1).last() == c);
        }
        if c != '.' {
            let piece = path.substring_char(i, i + 1);
            assert(piece@ =~= seq![c]);
            if i >= 1 && path.get_char(i - 1) == '.' && out.unicode_len() > 0 {
                assert(path@.take(i + 1)[i - 1] == path@[i - 1]);
                out.append(".");
                out.append(piece);
                assert(out@ =~= before + seq!['.', c]);
            } else {
                out.append(piece);
                assert(out@ =~= before.push(c));
                if i >= 1 {
                    assert(path@.take(i + 1)[i - 1] == path@[i - 1]);
                }
            }
        }
        proof {
            assert(out@ =~= normalized(path@.take(i + 1)));
        }
        i = i + 1;
    }
    assert(path@.take(n as int) =~= path@);
    out
}

impl Artifacts {
    /// No artifacts.
    pub fn new() -> (a: Artifacts)
        ensures
            a.entries@.len() == 0,
    {
        Artifacts { entries: Vec::new() }
    }

    /// The stored paths.
    pub open spec fn paths(&self) -> Seq<Seq<char>> {
        self.entries@.map_values(|e: (String, String)| e.0@)
    }

    /// Stores the JSON text `value` at dot path `path`, replacing whatever the
    /// path, an enclosing object or anything under it held. A path with no
    /// segment changes nothing.
    pub fn set_artifact_path(&mut self, path: &str, value: String)
        ensures
            normalized(path@).len() == 0 ==> *final(self) == *old(self),
            normalized(path@).len() > 0 ==> {
                let key = normalized(path@);
                &&& final(self).entries@.len() > 0
                &&& final(self).entries@.last().0@ == key
                &&& final(self).entries@.last().1 == value
                &&& forall|i: int|
                    0 <= i < final(self).entries@.len() - 1 ==> !overlaps(
                        key,
                        (#[trigger] final(self).entries@[i]).0@,
                    ) && old(self).entries@.contains(final(self).entries@[i])
                &&& forall|j: int|
                    0 <= j < old(self).entries@.len() && !overlaps(
                        key,
                        (#[trigger] old(self).entries@[j]).0@,
                    ) ==> final(self).entries@.contains(old(self).entries@[j])
            },
    {
        let key = normalize_path(path);
        if key.unicode_len() == 0 {
            return;
        }
        let mut kept: Vec<(String, String)> = Vec::new();
        let mut i: usize = 0;
        while i < self.entries.len()
            invariant
                i <= self.entries@.len(),
                key@ == normalized(path@),
                forall|x: int|
                    0 <= x < kept@.len() ==> !overlaps(key@, (#[trigger] kept@[x]).0@)
                        && self.entries@.contains(kept@[x]),
                forall|j: int|
                    0 <= j < i && !overlaps(key@, (#[trigger] self.entries@[j]).0@)
                        ==> kept@.contains(self.entries@[j]),
                self.entries == old(self).entries,
            decreases self.entries@.len() - i,
        {
            let p = self.entries[i].0.as_str();
            let ov = str_eq(p, key.as_str()) || segment_prefix(p, key.as_str()) || segment_prefix(
                key.as_str(),
                p,
            );
            if !ov {
                let ghost prev = kept@;
                let e = (self.entries[i].0.clone(), self.entries[i].1.clone());
                kept.push(e);
                proof {
                    assert(kept@[prev.len() as int] == self.entries@[i as int]);
                    assert forall|j: int|
                        0 <= j <= i && !overlaps(key@, (#[trigger] self.entries@[j]).0@)
                            implies kept@.contains(self.entries@[j]) by {
                        if j < i {
                            let y = choose|y: int| 0 <= y < prev.len() && prev[y] == self.entries@[j];
                            assert(kept@[y] == prev[y]);
                        }
                    }
                    assert forall|x: int| 0 <= x < kept@.len() implies !overlaps(
                        key@,
                        (#[trigger] kept@[x]).0@,
                    ) && self.entries@.contains(kept@[x]) by {
                        if x < prev.len() {
                            assert(kept@[x] == prev[x]);
                        }
                    }
                }
            }
            i = i + 1;
        }
        let ghost old_entries = self.entries@;
        let ghost kept_v = kept@;
        kept.push((key, value));
        self.entries = kept;
        proof {
            assert forall|i: int|
                0 <= i < self.entries@.len() - 1 implies !overlaps(
                normalized(path@),
                (#[trigger] self.entries@[i]).0@,
            ) && old(self).entries@.contains(self.entries@[i]) by {
                assert(self.entries@[i] == kept_v[i]);
            }
            assert forall|j: int|
                0 <= j < old(self).entries@.len() && !overlaps(
                    normalized(path@),
                    (#[trigger] old(self).entries@[j]).0@,
                ) implies self.entries@.contains(old(self).entries@[j]) by {
                let y = choose|y: int| 0 <= y < kept_v.len() && kept_v[y] == old_entries[j];
                assert(self.entries@[y] == kept_v[y]);
            }
        }
    }
}

/// Whether `q` lies under `p`: `q` is `p`, a dot, and more.
pub fn segment_prefix(p: &str, q: &str) -> (r: bool)
    ensures
        r == is_segment_prefix(p@, q@),
{
    let n = p.unicode_len();
    let m = q.unicode_len();
    if n >= m {
        return false;
    }
    let mut i: usize = 0;
    while i < n
        invariant
            n == p@.len(),
            m == q@.len(),
            n < m,
            i <= n,
            forall|k: int| 0 <= k < i ==> q@[k] == p@[k],
        decreases n - i,
    {
        if q.get_char(i) != p.get_char(i) {
            assert(q@.take(n as int)[i as int] != p@[i as int]);
            return false;
        }
        i = i + 1;
    }
    assert(q@.take(n as int) =~= p@);
    q.get_char(n) == '.'
}

} // verus!
