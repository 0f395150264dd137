//! Finding repositories on disk, as a walk the caller drives: this module decides which folder
//! to read next and what its entries mean; the caller reads the folders.
//!
//! Three rules hold the cost down, all deliberate:
//!
//! - **it does not descend into a repository it found**: the scan is for *projects*, and
//!   descending into a monorepo would take minutes;
//! - **it does not follow symlinks** (the caller reports an entry's own type): no cycles, and the
//!   walk cannot leave the root;
//! - **it skips hidden folders** (`.git`, `.cache`, `.venv`): none of that is the user's project.
use vstd::prelude::*;
use crate::error::{lowercase, to_lowercase};
use crate::fs::{lemma_text_le_antisymmetric, lemma_text_le_total, lemma_text_le_transitive, text_le, Found};
use crate::registry::{lemma_path_le_total, lemma_path_le_transitive, path_le};
use crate::text::{chars_of, eq};

verus! {

broadcast use vstd::seq_lib::group_seq_properties;

/// An entry of a folder being scanned, as the file system gave it.
#[derive(Debug, Clone)]
pub struct Listed {
    /// The entry's name, decoded lossily.
    pub name: String,
    pub path: String,
    /// Its own type is a folder (a symlink is not followed).
    pub is_dir: bool,
    /// It is a repository: a worktree, a linked worktree, a submodule or a bare repository.
    pub is_repo: bool,
}

/// The walk: folders still to read, and what was found.
#[derive(Debug)]
pub struct Scanner {
    queue: Vec<(String, usize)>,
    found: Vec<Found>,
    max_depth: usize,
    limit: usize,
}

pub struct ScannerView {
    pub queue: Seq<(Seq<char>, usize)>,
    pub found: Seq<(Seq<char>, Seq<char>, usize)>,
    pub max_depth: usize,
    pub limit: usize,
}

pub open spec fn found_views(v: Seq<Found>) -> Seq<(Seq<char>, Seq<char>, usize)> {
    v.map_values(|f: Found| (f.name@, f.path@, f.depth))
}

pub open spec fn queue_views(v: Seq<(String, usize)>) -> Seq<(Seq<char>, usize)> {
    v.map_values(|q: (String, usize)| (q.0@, q.1))
}

impl View for Scanner {
    type V = ScannerView;

    closed spec fn view(&self) -> ScannerView {
        ScannerView {
            queue: queue_views(self.queue@),
            found: found_views(self.found@),
            max_depth: self.max_depth,
            limit: self.limit,
        }
    }
}

/// What the walk keeps true: never more than the limit found, every find within the depth, no
/// queued folder deeper than the depth.
pub open spec fn sound(s: ScannerView) -> bool {
    &&& s.found.len() <= s.limit
    &&& forall|i: int| 0 <= i < s.found.len() ==> 1 <= #[trigger] s.found[i].2 <= s.max_depth
    &&& forall|i: int| 0 <= i < s.queue.len() ==> #[trigger] s.queue[i].1 <= s.max_depth
}

/// The folder the walk reads next, from the top of the stack: folders popped while the finds are
/// at the limit, or that lie at the depth, are dropped.
pub open spec fn pop_next(q: Seq<(Seq<char>, usize)>, full: bool, max_depth: usize) -> (
    Seq<(Seq<char>, usize)>,
    Option<(Seq<char>, usize)>,
)
    decreases q.len(),
{
    if q.len() == 0 {
        (q, None)
    } else if full || q.last().1 >= max_depth {
        pop_next(q.drop_last(), full, max_depth)
    } else {
        (q.drop_last(), Some(q.last()))
    }
}

/// What the entries of a folder at `depth` add, read in order until the finds reach the limit:
/// a visible folder that is a repository is found (one level deeper), any other visible folder
/// is queued; hidden entries and files are skipped.
pub open spec fn take_entries(
    found: Seq<(Seq<char>, Seq<char>, usize)>,
    queue: Seq<(Seq<char>, usize)>,
    entries: Seq<Listed>,
    depth: usize,
    limit: usize,
) -> (Seq<(Seq<char>, Seq<char>, usize)>, Seq<(Seq<char>, usize)>)
    decreases entries.len(),
{
    if entries.len() == 0 || found.len() >= limit {
        (found, queue)
    } else {
        let e = entries[0];
        let rest = entries.drop_first();
        if (e.name@.len() > 0 && e.name@[0] == '.') || !e.is_dir {
            take_entries(found, queue, rest, depth, limit)
        } else if e.is_repo {
            take_entries(found.push((e.name@, e.path@, (depth + 1) as usize)), queue, rest, depth, limit)
        } else {
            take_entries(found, queue.push((e.path@, (depth + 1) as usize)), rest, depth, limit)
        }
    }
}

impl Scanner {
    pub closed spec fn wf(&self) -> bool {
        sound(self@)
    }

    /// A walk of `root`, `max_depth` levels down (1 is the root's children, 0 is nothing), that
    /// stops at `limit` finds.
    pub fn new(root: String, max_depth: usize, limit: usize) -> (s: Scanner)
        ensures
            s.wf(),
            s@.queue == seq![(root@, 0usize)],
            s@.found.len() == 0,
            s@.max_depth == max_depth,
            s@.limit == limit,
    {
        let s = Scanner { queue: vec![(root, 0)], found: Vec::new(), max_depth, limit };
        assert(s@.queue =~= seq![(s.queue@[0].0@, 0usize)]);
        assert(s@.found =~= seq![]);
        s
    }

    /// The next folder to read and its depth; `None` when the walk is over.
    pub fn next_dir(&mut self) -> (next: Option<(String, usize)>)
        requires
            old(self).wf(),
        ensures
            final(self).wf(),
            final(self)@.found == old(self)@.found,
            final(self)@.max_depth == old(self)@.max_depth,
            final(self)@.limit == old(self)@.limit,
            (final(self)@.queue, match next {
                Some((d, depth)) => Some((d@, depth)),
                None => None,
            }) == pop_next(old(self)@.queue, old(self)@.found.len() >= old(self)@.limit, old(self)@.max_depth),
    {
        loop
            invariant
                self.wf(),
                self@.found == old(self)@.found,
                self@.max_depth == old(self)@.max_depth,
                self@.limit == old(self)@.limit,
                pop_next(self@.queue, self@.found.len() >= self@.limit, self@.max_depth) == pop_next(
                    old(self)@.queue,
                    old(self)@.found.len() >= old(self)@.limit,
                    old(self)@.max_depth,
                ),
            decreases self.queue@.len(),
        {
            let ghost before = self@.queue;
            match self.queue.pop() {
                None => {
                    return None;
                },
                Some((dir, depth)) => {
                    assert(self@.queue =~= before.drop_last());
                    assert(before.last() == (dir@, depth));
                    if self.found.len() >= self.limit || depth >= self.max_depth {
                        continue;
                    }
                    return Some((dir, depth));
                },
            }
        }
    }

    /// Takes the entries of the folder `next_dir` gave at `depth`, in the order they were read.
    pub fn take(&mut self, depth: usize, entries: &[Listed])
        requires
            old(self).wf(),
            depth < old(self)@.max_depth,
        ensures
            final(self).wf(),
            final(self)@.max_depth == old(self)@.max_depth,
            final(self)@.limit == old(self)@.limit,
            (final(self)@.found, final(self)@.queue) == take_entries(
                old(self)@.found,
                old(self)@.queue,
                entries@,
                depth,
                old(self)@.limit,
            ),
    {
        let mut i: usize = 0;
        while i < entries.len()
            invariant
                i <= entries.len(),
                depth < self@.max_depth,
                self.wf(),
                self@.max_depth == old(self)@.max_depth,
                self@.limit == old(self)@.limit,
                take_entries(old(self)@.found, old(self)@.queue, entries@, depth, old(self)@.limit)
                    == take_entries(self@.found, self@.queue, entries@.skip(i as int), depth, self@.limit),
            decreases entries.len() - i,
        {
            assert(entries@.skip(i as int)[0] == entries@[i as int]);
            assert(entries@.skip(i as int).drop_first() =~= entries@.skip(i + 1));
            if self.found.len() >= self.limit {
                return;
            }
            let e = &entries[i];
            let name = chars_of(e.name.as_str());
            let hidden = name.len() > 0 && name[0] == '.';
            if !hidden && e.is_dir {
                let ghost fb = self@.found;
                let ghost qb = self@.queue;
                if e.is_repo {
                    self.found.push(Found { name: e.name.clone(), path: e.path.clone(), depth: depth + 1 });
                    assert(self@.found =~= fb.push((e.name@, e.path@, (depth + 1) as usize)));
                } else {
                    self.queue.push((e.path.clone(), depth + 1));
                    assert(self@.queue =~= qb.push((e.path@, (depth + 1) as usize)));
                }
            }
            i += 1;
        }
        assert(entries@.skip(i as int).len() == 0);
    }

    /// What the walk found, by name without case, then by path.
    pub fn finish(self) -> (r: Vec<Found>)
        requires
            self.wf(),
        ensures
            r@.len() == self@.found.len(),
            r@.len() <= self@.limit,
            found_views(r@).to_multiset() == self@.found.to_multiset(),
            forall|a: int, b: int| 0 <= a < b < r@.len() ==> found_le(#[trigger] r@[a], #[trigger] r@[b]),
    {
        let mut out: Vec<Found> = Vec::new();
        let mut keys: Vec<Vec<char>> = Vec::new();
        let ghost all = self@.found.to_multiset();
        let mut rest = self.found;
        let ghost total = rest@.len();
        proof {
            broadcast use vstd::seq_lib::group_to_multiset_ensures, vstd::multiset::group_multiset_axioms;
            assert(found_views(out@) =~= Seq::<(Seq<char>, Seq<char>, usize)>::empty());
            assert(found_views(out@).to_multiset().add(found_views(rest@).to_multiset()) =~= all);
        }
        while rest.len() > 0
            invariant
                out@.len() + rest@.len() == total,
                found_views(out@).to_multiset().add(found_views(rest@).to_multiset()) == all,
                keys@.len() == out@.len(),
                forall|k: int| 0 <= k < keys@.len() ==> #[trigger] keys@[k]@ == lowercase(out@[k].name@),
                forall|a: int, b: int| 0 <= a < b < out@.len() ==> found_le(#[trigger] out@[a], #[trigger] out@[b]),
            decreases rest@.len(),
        {
            let ghost rest_before = rest@;
            let f = rest.pop().unwrap();
            proof {
                broadcast use vstd::seq_lib::group_to_multiset_ensures;
                assert(found_views(rest_before) =~= found_views(rest@).push((f.name@, f.path@, f.depth)));
            }
            let key = to_lowercase(f.name.as_str());
            let ghost before = out@;
            let ghost before_keys = keys@;
            let mut p: usize = 0;
            while p < out.len() && found_le_exec(&keys[p], &out[p], &key, &f)
                invariant
                    p <= out@.len(),
                    out@ == before,
                    keys@ == before_keys,
                    keys@.len() == out@.len(),
                    key@ == lowercase(f.name@),
                    forall|k: int| 0 <= k < keys@.len() ==> #[trigger] keys@[k]@ == lowercase(out@[k].name@),
                    forall|k: int| 0 <= k < p ==> found_le(#[trigger] out@[k], f),
                decreases out@.len() - p,
            {
                p += 1;
            }
            proof {
                if p < before.len() {
                    lemma_found_le_total(before[p as int], f);
                }
            }
            out.insert(p, f);
            keys.insert(p, key);
            proof {
                broadcast use vstd::seq_lib::group_to_multiset_ensures, vstd::multiset::group_multiset_axioms;
                assert(found_views(out@) =~= found_views(before).insert(p as int, (f.name@, f.path@, f.depth)));
                assert(found_views(out@).to_multiset().add(found_views(rest@).to_multiset())
                    =~= found_views(before).to_multiset().add(found_views(rest_before).to_multiset()));
            }
            proof {
                assert forall|k: int| 0 <= k < keys@.len() implies #[trigger] keys@[k]@ == lowercase(out@[k].name@) by {
                    if k < p {
                        assert(keys@[k] == before_keys[k] && out@[k] == before[k]);
                    } else if k > p {
                        assert(keys@[k] == before_keys[k - 1] && out@[k] == before[k - 1]);
                    }
                }
                assert forall|a: int, b: int| 0 <= a < b < out@.len() implies found_le(#[trigger] out@[a], #[trigger] out@[b]) by {
                    let oa = if a < p { a } else { a - 1 };
                    let ob = if b < p { b } else { b - 1 };
                    if a != p && b != p {
                        assert(out@[a] == before[oa] && out@[b] == before[ob]);
                    } else if a == p {
                        assert(out@[b] == before[ob]);
                        if ob > p {
                            lemma_found_le_transitive(f, before[p as int], before[ob]);
                        }
                    } else {
                        assert(out@[a] == before[oa]);
                    }
                }
            }
        }
        proof {
            broadcast use vstd::multiset::group_multiset_axioms;
            assert(found_views(rest@) =~= Seq::<(Seq<char>, Seq<char>, usize)>::empty());
            assert(found_views(out@).to_multiset() =~= all);
        }
        out
    }
}

/// Finds order: by name without case, then by path.
pub open spec fn found_le(a: Found, b: Found) -> bool {
    let (la, lb) = (lowercase(a.name@), lowercase(b.name@));
    (text_le(la, lb) && la != lb) || (la == lb && path_le(a.path@, b.path@))
}

proof fn lemma_found_le_total(a: Found, b: Found)
    ensures
        found_le(a, b) || found_le(b, a),
{
    lemma_text_le_total(lowercase(a.name@), lowercase(b.name@));
    lemma_path_le_total(a.path@, b.path@);
}

proof fn lemma_found_le_transitive(a: Found, b: Found, c: Found)
    requires
        found_le(a, b),
        found_le(b, c),
    ensures
        found_le(a, c),
{
    let (la, lb, lc) = (lowercase(a.name@), lowercase(b.name@), lowercase(c.name@));
    if la != lb && lb != lc {
        lemma_text_le_transitive(la, lb, lc);
        if la == lc {
            lemma_text_le_antisymmetric(la, lb);
        }
    } else if la == lb && lb == lc {
        lemma_path_le_transitive(a.path@, b.path@, c.path@);
    }
}

fn found_le_exec(ka: &Vec<char>, a: &Found, kb: &Vec<char>, b: &Found) -> (r: bool)
    requires
        ka@ == lowercase(a.name@),
        kb@ == lowercase(b.name@),
    ensures
        r == found_le(*a, *b),
{
    if eq(ka, kb) {
        crate::registry::path_le_exec(&chars_of(a.path.as_str()), &chars_of(b.path.as_str()))
    } else {
        crate::fs::text_le_exec(ka, kb)
    }
}

} // verus!
