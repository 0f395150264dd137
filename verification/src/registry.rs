//! The registry of open repositories.
//!
//! **No git route takes a repository path from the client.** Once the user opens a repository,
//! everything goes by `repo_id`, an opaque hash of the canonical path: there is no path on the
//! surface to traverse. The registry fills only on the user's explicit action and lives in
//! memory.
use vstd::prelude::*;
use crate::web::{hex, hex_exec};
use crate::text::{string_of, chars_of, eq, split, split_exec, views};
use crate::fs::{
    lemma_text_le_antisymmetric, lemma_text_le_total, lemma_text_le_transitive, text_le, text_le_exec,
};
use sha2::{Digest, Sha256};
use vstd::utf8::encode_utf8;

verus! {

broadcast use vstd::seq_lib::group_seq_properties;

/// What SHA-256 makes of some bytes.
pub uninterp spec fn sha256_of(bytes: Seq<u8>) -> Seq<u8>;

/// `sha2::Sha256::digest`: the 32 bytes of the SHA-256 of the input. The contract names the
/// hash and claims its length; the hash function itself is left unsaid.
#[verifier::external_body]
pub(crate) fn sha256(bytes: &[u8]) -> (d: Vec<u8>)
    ensures
        d@ == sha256_of(bytes@),
        d@.len() == 32,
{
    Sha256::digest(bytes).to_vec()
}

/// The id of a repository: the first 16 bytes of the SHA-256 of its path, in hex. Derived from
/// the path alone, not from a counter or a secret of the boot: reopening the same repository
/// gives the same id.
pub open spec fn repo_id_of(path: Seq<char>) -> Seq<char> {
    hex(sha256_of(encode_utf8(path)).take(16))
}

pub fn repo_id(path: &str) -> (id: String)
    ensures
        id@ == repo_id_of(path@),
{
    let digest = sha256(path.as_bytes());
    let mut first: Vec<u8> = Vec::new();
    let mut i: usize = 0;
    while i < 16
        invariant
            i <= 16,
            digest@.len() == 32,
            first@ == digest@.take(i as int),
        decreases 16 - i,
    {
        first.push(digest[i]);
        assert(digest@.take(i + 1) =~= digest@.take(i as int).push(digest@[i as int]));
        i += 1;
    }
    string_of(&hex_exec(first.as_slice()))
}

// ---------------------------------------------------------------------------------------------
// the order of paths
// ---------------------------------------------------------------------------------------------
/// A component of a path, as `Path::components` gives it on Unix: its kind (the root `0`, a
/// leading `.` `1`, `..` `2`, a name `3`) and, for a name, its text.
pub type PathComponent = (int, Seq<char>);

/// The components of the parts between separators: empty parts (repeated or trailing
/// separators) and `.` are normalised away, `..` is the parent, anything else a name.
pub open spec fn part_components(parts: Seq<Seq<char>>) -> Seq<PathComponent>
    decreases parts.len(),
{
    if parts.len() == 0 {
        Seq::empty()
    } else {
        let rest = part_components(parts.drop_last());
        let last = parts.last();
        if last.len() == 0 || last == "."@ {
            rest
        } else if last == ".."@ {
            rest.push((2, Seq::empty()))
        } else {
            rest.push((3, last))
        }
    }
}

/// The components of a path: the root first for an absolute path, a `.` first for a path that
/// begins with one, then the parts.
pub open spec fn path_components(path: Seq<char>) -> Seq<PathComponent> {
    let parts = split(path, '/');
    let head = if path.len() > 0 && path[0] == '/' {
        seq![(0int, Seq::<char>::empty())]
    } else if parts.len() > 0 && parts[0] == "."@ {
        seq![(1int, Seq::<char>::empty())]
    } else {
        Seq::empty()
    };
    head + part_components(parts)
}

/// One component strictly before another: by kind, then names by their text.
pub open spec fn component_lt(x: PathComponent, y: PathComponent) -> bool {
    x.0 < y.0 || (x.0 == y.0 && text_le(x.1, y.1) && x.1 != y.1)
}

/// Component sequences in lexicographic order: a prefix comes first.
pub open spec fn components_le(a: Seq<PathComponent>, b: Seq<PathComponent>) -> bool
    decreases a.len(),
{
    if a.len() == 0 {
        true
    } else if b.len() == 0 {
        false
    } else if a[0] != b[0] {
        component_lt(a[0], b[0])
    } else {
        components_le(a.drop_first(), b.drop_first())
    }
}

/// `a` comes before `b` in `Path`'s order, or ties with it: component by component.
pub open spec fn path_le(a: Seq<char>, b: Seq<char>) -> bool {
    components_le(path_components(a), path_components(b))
}

proof fn lemma_component_lt_total(x: PathComponent, y: PathComponent)
    ensures
        x != y ==> component_lt(x, y) || component_lt(y, x),
{
    lemma_text_le_total(x.1, y.1);
    if x.0 == y.0 && text_le(x.1, y.1) && text_le(y.1, x.1) {
        lemma_text_le_antisymmetric(x.1, y.1);
    }
}

proof fn lemma_component_lt_transitive(x: PathComponent, y: PathComponent, z: PathComponent)
    requires
        component_lt(x, y),
        component_lt(y, z),
    ensures
        component_lt(x, z),
{
    if x.0 == y.0 && y.0 == z.0 {
        lemma_text_le_transitive(x.1, y.1, z.1);
        if x.1 == z.1 {
            lemma_text_le_antisymmetric(x.1, y.1);
        }
    }
}

proof fn lemma_component_lt_irreflexive(x: PathComponent, y: PathComponent)
    requires
        component_lt(x, y),
    ensures
        !component_lt(y, x),
{
    if x.0 == y.0 && text_le(y.1, x.1) {
        lemma_text_le_antisymmetric(x.1, y.1);
    }
}

proof fn lemma_components_le_total(a: Seq<PathComponent>, b: Seq<PathComponent>)
    ensures
        components_le(a, b) || components_le(b, a),
    decreases a.len(),
{
    if a.len() > 0 && b.len() > 0 {
        if a[0] == b[0] {
            lemma_components_le_total(a.drop_first(), b.drop_first());
        } else {
            lemma_component_lt_total(a[0], b[0]);
        }
    }
}

proof fn lemma_components_le_transitive(a: Seq<PathComponent>, b: Seq<PathComponent>, c: Seq<PathComponent>)
    requires
        components_le(a, b),
        components_le(b, c),
    ensures
        components_le(a, c),
    decreases a.len(),
{
    if a.len() > 0 && b.len() > 0 && c.len() > 0 {
        if a[0] == b[0] && b[0] == c[0] {
            lemma_components_le_transitive(a.drop_first(), b.drop_first(), c.drop_first());
        } else if a[0] == b[0] {
        } else if b[0] == c[0] {
        } else {
            lemma_component_lt_transitive(a[0], b[0], c[0]);
        }
    }
}

proof fn lemma_components_le_antisymmetric(a: Seq<PathComponent>, b: Seq<PathComponent>)
    requires
        components_le(a, b),
        components_le(b, a),
    ensures
        a == b,
    decreases a.len(),
{
    if a.len() > 0 && b.len() > 0 {
        if a[0] == b[0] {
            lemma_components_le_antisymmetric(a.drop_first(), b.drop_first());
            assert(a =~= seq![a[0]] + a.drop_first());
            assert(b =~= seq![b[0]] + b.drop_first());
        } else {
            lemma_component_lt_irreflexive(a[0], b[0]);
        }
    } else {
        assert(a.len() == 0 && b.len() == 0);
        assert(a =~= b);
    }
}

pub proof fn lemma_path_le_total(a: Seq<char>, b: Seq<char>)
    ensures
        path_le(a, b) || path_le(b, a),
{
    lemma_components_le_total(path_components(a), path_components(b));
}

pub proof fn lemma_path_le_transitive(a: Seq<char>, b: Seq<char>, c: Seq<char>)
    requires
        path_le(a, b),
        path_le(b, c),
    ensures
        path_le(a, c),
{
    lemma_components_le_transitive(path_components(a), path_components(b), path_components(c));
}

/// Two paths that order both ways have the same components: `Path` holds them equal.
pub proof fn lemma_path_le_antisymmetric(a: Seq<char>, b: Seq<char>)
    requires
        path_le(a, b),
        path_le(b, a),
    ensures
        path_components(a) == path_components(b),
{
    lemma_components_le_antisymmetric(path_components(a), path_components(b));
}

/// The components of a path, as kinds and texts.
fn components_exec(path: &Vec<char>) -> (r: Vec<(u8, Vec<char>)>)
    ensures
        r@.map_values(|c: (u8, Vec<char>)| (c.0 as int, c.1@)) == path_components(path@),
{
    let parts = split_exec(path, '/');
    let ghost pv = views(parts@);
    let mut out: Vec<(u8, Vec<char>)> = Vec::new();
    let dot = vec!['.'];
    let dots = vec!['.', '.'];
    proof {
        reveal_strlit(".");
        reveal_strlit("..");
        assert(dot@ =~= "."@);
        assert(dots@ =~= ".."@);
    }
    if path.len() > 0 && path[0] == '/' {
        out.push((0u8, Vec::new()));
    } else if parts.len() > 0 && eq(&parts[0], &dot) {
        proof {
            assert(pv[0] == parts@[0]@);
        }
        out.push((1u8, Vec::new()));
    }
    let ghost head = out@.map_values(|c: (u8, Vec<char>)| (c.0 as int, c.1@));
    proof {
        if path@.len() > 0 && path@[0] == '/' {
            assert(head =~= seq![(0int, Seq::<char>::empty())]);
        } else if pv.len() > 0 && pv[0] == "."@ {
            assert(parts@[0]@ == pv[0]);
            assert(head =~= seq![(1int, Seq::<char>::empty())]);
        } else {
            if parts.len() > 0 {
                assert(parts@[0]@ == pv[0]);
            }
            assert(head =~= Seq::<PathComponent>::empty());
        }
    }
    let mut i: usize = 0;
    while i < parts.len()
        invariant
            i <= parts.len(),
            pv == views(parts@),
            dot@ == "."@,
            dots@ == ".."@,
            out@.map_values(|c: (u8, Vec<char>)| (c.0 as int, c.1@)) == head + part_components(pv.take(i as int)),
        decreases parts.len() - i,
    {
        let ghost before = out@.map_values(|c: (u8, Vec<char>)| (c.0 as int, c.1@));
        let part = &parts[i];
        proof {
            assert(pv[i as int] == part@);
            assert(pv.take(i + 1).drop_last() =~= pv.take(i as int));
            assert(pv.take(i + 1).last() == part@);
        }
        if part.len() == 0 || eq(part, &dot) {
        } else if eq(part, &dots) {
            out.push((2u8, Vec::new()));
            assert(out@.map_values(|c: (u8, Vec<char>)| (c.0 as int, c.1@)) =~= before.push((2int, Seq::<char>::empty())));
        } else {
            out.push((3u8, part.clone()));
            assert(out@.map_values(|c: (u8, Vec<char>)| (c.0 as int, c.1@)) =~= before.push((3int, part@)));
        }
        i += 1;
    }
    assert(pv.take(parts.len() as int) =~= pv);
    out
}

pub(crate) fn path_le_exec(a: &Vec<char>, b: &Vec<char>) -> (r: bool)
    ensures
        r == path_le(a@, b@),
{
    let ca = components_exec(a);
    let cb = components_exec(b);
    let ghost va = ca@.map_values(|c: (u8, Vec<char>)| (c.0 as int, c.1@));
    let ghost vb = cb@.map_values(|c: (u8, Vec<char>)| (c.0 as int, c.1@));
    let mut i: usize = 0;
    while i < ca.len() && i < cb.len() && ca[i].0 == cb[i].0 && eq(&ca[i].1, &cb[i].1)
        invariant
            i <= ca.len(),
            i <= cb.len(),
            va == ca@.map_values(|c: (u8, Vec<char>)| (c.0 as int, c.1@)),
            vb == cb@.map_values(|c: (u8, Vec<char>)| (c.0 as int, c.1@)),
            components_le(va, vb) == components_le(va.skip(i as int), vb.skip(i as int)),
        decreases ca.len() - i,
    {
        assert(va[i as int] == vb[i as int]);
        assert(va.skip(i as int)[0] == va[i as int]);
        assert(vb.skip(i as int)[0] == vb[i as int]);
        assert(va.skip(i as int).drop_first() =~= va.skip(i + 1));
        assert(vb.skip(i as int).drop_first() =~= vb.skip(i + 1));
        i += 1;
    }
    if i == ca.len() {
        true
    } else if i == cb.len() {
        false
    } else {
        assert(va.skip(i as int)[0] == va[i as int]);
        assert(vb.skip(i as int)[0] == vb[i as int]);
        if ca[i].0 != cb[i].0 {
            ca[i].0 < cb[i].0
        } else {
            assert(va[i as int] != vb[i as int]);
            text_le_exec(&ca[i].1, &cb[i].1)
        }
    }
}

// ---------------------------------------------------------------------------------------------
// the registry
// ---------------------------------------------------------------------------------------------
pub open spec fn entry_views(v: Seq<(String, String)>) -> Seq<(Seq<char>, Seq<char>)> {
    v.map_values(|e: (String, String)| (e.0@, e.1@))
}

/// The map the entries stand for, later entries over earlier ones.
pub open spec fn map_of(v: Seq<(Seq<char>, Seq<char>)>) -> Map<Seq<char>, Seq<char>>
    decreases v.len(),
{
    if v.len() == 0 {
        Map::empty()
    } else {
        map_of(v.drop_last()).insert(v.last().0, v.last().1)
    }
}

pub open spec fn ids_unique(v: Seq<(Seq<char>, Seq<char>)>) -> bool {
    forall|i: int, j: int| 0 <= i < j < v.len() ==> #[trigger] v[i].0 != #[trigger] v[j].0
}

proof fn lemma_map_of(v: Seq<(Seq<char>, Seq<char>)>)
    requires
        ids_unique(v),
    ensures
        forall|i: int| 0 <= i < v.len() ==> #[trigger] map_of(v).contains_key(v[i].0) && map_of(v)[v[i].0]
            == v[i].1,
        forall|k: Seq<char>|
            #[trigger] map_of(v).contains_key(k) ==> exists|i: int| 0 <= i < v.len() && v[i].0 == k,
        map_of(v).dom().len() == v.len(),
        map_of(v).dom().finite(),
    decreases v.len(),
{
    if v.len() > 0 {
        let init = v.drop_last();
        assert forall|i: int, j: int| 0 <= i < j < init.len() implies #[trigger] init[i].0 != #[trigger] init[j].0 by {
            assert(init[i] == v[i] && init[j] == v[j]);
        }
        lemma_map_of(init);
        assert forall|i: int| 0 <= i < v.len() implies #[trigger] map_of(v).contains_key(v[i].0)
            && map_of(v)[v[i].0] == v[i].1 by {
            if i < v.len() - 1 {
                assert(init[i] == v[i]);
                assert(v[i].0 != v[v.len() - 1].0);
            }
        }
        assert forall|k: Seq<char>| #[trigger] map_of(v).contains_key(k) implies exists|i: int|
            0 <= i < v.len() && v[i].0 == k by {
            if k != v.last().0 {
                let i = choose|i: int| 0 <= i < init.len() && init[i].0 == k;
                assert(v[i] == init[i]);
            } else {
                assert(v[v.len() - 1].0 == k);
            }
        }
        assert(!map_of(init).contains_key(v.last().0)) by {
            if map_of(init).contains_key(v.last().0) {
                let i = choose|i: int| 0 <= i < init.len() && init[i].0 == v.last().0;
                assert(init[i] == v[i]);
            }
        }
    }
}

/// The repositories opened in this boot, by id.
#[derive(Debug, Default)]
pub struct Registry {
    open: Vec<(String, String)>,
}

impl Registry {
    #[verifier::type_invariant]
    spec fn unique(self) -> bool {
        ids_unique(entry_views(self.open@))
    }
}

impl View for Registry {
    type V = Map<Seq<char>, Seq<char>>;

    closed spec fn view(&self) -> Map<Seq<char>, Seq<char>> {
        map_of(entry_views(self.open@))
    }
}

impl Registry {
    pub fn new() -> (r: Registry)
        ensures
            r@ == Map::<Seq<char>, Seq<char>>::empty(),
    {
        let r = Registry { open: Vec::new() };
        assert(entry_views(r.open@) =~= seq![]);
        r
    }

    /// Registers (or confirms) a repository by its canonical path and returns its id.
    pub fn register(&mut self, path: &str) -> (id: String)
        ensures
            id@ == repo_id_of(path@),
            final(self)@ == old(self)@.insert(id@, path@),
    {
        proof {
            use_type_invariant(&*self);
        }
        let id = repo_id(path);
        let ghost before = entry_views(self.open@);
        let mut open: Vec<(String, String)> = Vec::new();
        std::mem::swap(&mut open, &mut self.open);
        // an id already there is confirmed: its entry goes, the new one comes last
        let mut kept: Vec<(String, String)> = Vec::new();
        let mut i: usize = 0;
        while i < open.len()
            invariant
                i <= open.len(),
                before == entry_views(open@),
                ids_unique(before),
                ids_unique(entry_views(kept@)),
                forall|k: int| 0 <= k < kept@.len() ==> #[trigger] kept@[k].0@ != id@,
                map_of(entry_views(kept@)) == map_of(before.take(i as int)).remove(id@),
                forall|k: int|
                    0 <= k < kept@.len() ==> exists|j: int| 0 <= j < i && #[trigger] kept@[k].0@ == before[j].0,
            decreases open.len() - i,
        {
            let ghost kv = entry_views(kept@);
            assert(before.take(i + 1).drop_last() =~= before.take(i as int));
            assert(before.take(i + 1).last() == before[i as int]);
            if !eq(&chars_of(open[i].0.as_str()), &chars_of(id.as_str())) {
                let e = (open[i].0.clone(), open[i].1.clone());
                kept.push(e);
                proof {
                    assert(entry_views(kept@) =~= kv.push((e.0@, e.1@)));
                    assert(entry_views(kept@).drop_last() =~= kv);
                    assert forall|a: int, b: int| 0 <= a < b < entry_views(kept@).len() implies #[trigger] entry_views(kept@)[a].0
                        != #[trigger] entry_views(kept@)[b].0 by {
                        if b == kv.len() {
                            let j = choose|j: int| 0 <= j < i && kept@[a].0@ == before[j].0;
                            assert(before[j].0 != before[i as int].0);
                        }
                    }
                    assert(map_of(entry_views(kept@)) =~= map_of(before.take(i + 1)).remove(id@));
                }
            } else {
                proof {
                    assert(map_of(kv) =~= map_of(before.take(i + 1)).remove(id@));
                }
            }
            i += 1;
        }
        assert(before.take(open.len() as int) =~= before);
        let ghost kv = entry_views(kept@);
        kept.push((id.clone(), path.to_owned()));
        proof {
            assert(entry_views(kept@) =~= kv.push((id@, path@)));
            assert(entry_views(kept@).drop_last() =~= kv);
            assert forall|a: int, b: int| 0 <= a < b < entry_views(kept@).len() implies #[trigger] entry_views(kept@)[a].0
                != #[trigger] entry_views(kept@)[b].0 by {}
            assert(map_of(entry_views(kept@)) =~= map_of(before).insert(id@, path@));
        }
        self.open = kept;
        id
    }

    /// The path of an open repository; `None` is "an id this boot does not know".
    pub fn path_of(&self, id: &str) -> (p: Option<String>)
        ensures
            match p {
                Some(path) => self@.contains_key(id@) && self@[id@] == path@,
                None => !self@.contains_key(id@),
            },
    {
        proof {
            use_type_invariant(self);
            lemma_map_of(entry_views(self.open@));
        }
        let wanted = chars_of(id);
        let mut i: usize = 0;
        while i < self.open.len()
            invariant
                i <= self.open.len(),
                wanted@ == id@,
                ids_unique(entry_views(self.open@)),
                forall|k: int| 0 <= k < i ==> #[trigger] self.open@[k].0@ != id@,
            decreases self.open.len() - i,
        {
            if eq(&chars_of(self.open[i].0.as_str()), &wanted) {
                proof {
                    lemma_map_of(entry_views(self.open@));
                    assert(entry_views(self.open@)[i as int] == (self.open@[i as int].0@, self.open@[i as int].1@));
                    assert(self.open@[i as int].0@ == id@);
                    assert(map_of(entry_views(self.open@)).contains_key(entry_views(self.open@)[i as int].0));
                }
                return Some(self.open[i].1.clone());
            }
            i += 1;
        }
        proof {
            lemma_map_of(entry_views(self.open@));
            if self@.contains_key(id@) {
                let j = choose|j: int| 0 <= j < entry_views(self.open@).len() && entry_views(self.open@)[j].0 == id@;
                assert(self.open@[j].0@ == id@);
            }
        }
        None
    }

    /// Every open repository, by path order.
    pub fn list(&self) -> (r: Vec<(String, String)>)
        ensures
            map_of(entry_views(r@)) == self@,
            ids_unique(entry_views(r@)),
            r@.len() == self@.dom().len(),
            forall|i: int, j: int| 0 <= i < j < r@.len() ==> path_le(#[trigger] r@[i].1@, #[trigger] r@[j].1@),
    {
        proof {
            use_type_invariant(self);
            lemma_map_of(entry_views(self.open@));
        }
        let mut out: Vec<(String, String)> = Vec::new();
        let ghost all = entry_views(self.open@);
        let mut i: usize = 0;
        while i < self.open.len()
            invariant
                i <= self.open.len(),
                all == entry_views(self.open@),
                ids_unique(all),
                ids_unique(entry_views(out@)),
                map_of(entry_views(out@)) == map_of(all.take(i as int)),
                out@.len() == i,
                forall|k: int| 0 <= k < out@.len() ==> exists|j: int| 0 <= j < i && #[trigger] out@[k].0@ == all[j].0,
                forall|a: int, b: int| 0 <= a < b < out@.len() ==> path_le(#[trigger] out@[a].1@, #[trigger] out@[b].1@),
            decreases self.open.len() - i,
        {
            let e = (self.open[i].0.clone(), self.open[i].1.clone());
            assert(all.take(i + 1).drop_last() =~= all.take(i as int));
            assert(all.take(i + 1).last() == (e.0@, e.1@));
            insert_sorted(&mut out, e, Ghost(all), Ghost(i as int));
            i += 1;
        }
        assert(all.take(self.open.len() as int) =~= all);
        proof {
            lemma_map_of(entry_views(out@));
        }
        out
    }
}

proof fn lemma_insert_at(bv: Seq<(Seq<char>, Seq<char>)>, p: int, x: (Seq<char>, Seq<char>))
    requires
        0 <= p <= bv.len(),
        ids_unique(bv),
        forall|k: int| 0 <= k < bv.len() ==> #[trigger] bv[k].0 != x.0,
    ensures
        ids_unique(bv.take(p).push(x) + bv.skip(p)),
        map_of(bv.take(p).push(x) + bv.skip(p)) == map_of(bv).insert(x.0, x.1),
{
    let nv = bv.take(p).push(x) + bv.skip(p);
    assert forall|k: int| 0 <= k < nv.len() implies #[trigger] nv[k] == if k < p {
        bv[k]
    } else if k == p {
        x
    } else {
        bv[k - 1]
    } by {}
    assert forall|a: int, b: int| 0 <= a < b < nv.len() implies #[trigger] nv[a].0 != #[trigger] nv[b].0 by {
        assert(nv[a] == if a < p { bv[a] } else if a == p { x } else { bv[a - 1] });
        assert(nv[b] == if b < p { bv[b] } else if b == p { x } else { bv[b - 1] });
    }
    lemma_map_of(nv);
    lemma_map_of(bv);
    let m = map_of(bv).insert(x.0, x.1);
    assert forall|key: Seq<char>| map_of(nv).contains_key(key) <==> m.contains_key(key) by {
        if map_of(nv).contains_key(key) {
            let k = choose|k: int| 0 <= k < nv.len() && nv[k].0 == key;
            if k < p {
                assert(map_of(bv).contains_key(bv[k].0));
            } else if k > p {
                assert(map_of(bv).contains_key(bv[k - 1].0));
            }
        }
        if m.contains_key(key) && key != x.0 {
            let k = choose|k: int| 0 <= k < bv.len() && bv[k].0 == key;
            if k < p {
                assert(map_of(nv).contains_key(nv[k].0));
            } else {
                assert(map_of(nv).contains_key(nv[k + 1].0));
            }
        }
        if key == x.0 {
            assert(map_of(nv).contains_key(nv[p].0));
        }
    }
    assert forall|key: Seq<char>| #[trigger] map_of(nv).contains_key(key) implies map_of(nv)[key] == m[key] by {
        let k = choose|k: int| 0 <= k < nv.len() && nv[k].0 == key;
        assert(map_of(nv).contains_key(nv[k].0));
        if k < p {
            assert(map_of(bv).contains_key(bv[k].0));
        } else if k > p {
            assert(map_of(bv).contains_key(bv[k - 1].0));
        }
    }
    assert(map_of(nv) =~= m);
}

/// Puts `e` in its place among entries sorted by path.
fn insert_sorted(
    out: &mut Vec<(String, String)>,
    e: (String, String),
    Ghost(all): Ghost<Seq<(Seq<char>, Seq<char>)>>,
    Ghost(i): Ghost<int>,
)
    requires
        0 <= i < all.len(),
        ids_unique(all),
        all[i] == (e.0@, e.1@),
        ids_unique(entry_views(old(out)@)),
        forall|k: int| 0 <= k < old(out)@.len() ==> exists|j: int| 0 <= j < i && #[trigger] old(out)@[k].0@ == all[j].0,
        forall|a: int, b: int| 0 <= a < b < old(out)@.len() ==> path_le(#[trigger] old(out)@[a].1@, #[trigger] old(out)@[b].1@),
    ensures
        map_of(entry_views(final(out)@)) == map_of(entry_views(old(out)@)).insert(e.0@, e.1@),
        final(out)@.len() == old(out)@.len() + 1,
        ids_unique(entry_views(final(out)@)),
        forall|k: int| 0 <= k < final(out)@.len() ==> exists|j: int| 0 <= j <= i && #[trigger] final(out)@[k].0@ == all[j].0,
        forall|a: int, b: int| 0 <= a < b < final(out)@.len() ==> path_le(#[trigger] final(out)@[a].1@, #[trigger] final(out)@[b].1@),
{
    let ghost before = old(out)@;
    let mut p: usize = 0;
    while p < out.len() && path_le_exec(&chars_of(out[p].1.as_str()), &chars_of(e.1.as_str()))
        invariant
            p <= out@.len(),
            out@ == before,
            forall|k: int| 0 <= k < p ==> path_le(#[trigger] out@[k].1@, e.1@),
        decreases out@.len() - p,
    {
        p += 1;
    }
    proof {
        if p < before.len() {
            lemma_path_le_total(before[p as int].1@, e.1@);
        }
    }
    out.insert(p, e);
    proof {
        let now = out@;
        assert(now =~= before.take(p as int).push(e) + before.skip(p as int));
        // sorted
        assert forall|a: int, b: int| 0 <= a < b < now.len() implies path_le(#[trigger] now[a].1@, #[trigger] now[b].1@) by {
            if a < p && b == p {
            } else if a == p && b > p {
                if b - 1 > p {
                    lemma_path_le_transitive(e.1@, before[p as int].1@, before[b - 1].1@);
                }
            } else if a < p && b > p {
            } else {
            }
        }
        // the ids
        assert forall|k: int| 0 <= k < before.len() implies #[trigger] before[k].0@ != e.0@ by {
            let j = choose|j: int| 0 <= j < i && before[k].0@ == all[j].0;
            assert(all[j].0 != all[i].0);
        }
        let bv = entry_views(before);
        assert forall|k: int| 0 <= k < bv.len() implies #[trigger] bv[k].0 != e.0@ by {
            assert(bv[k].0 == before[k].0@);
        }
        lemma_insert_at(bv, p as int, (e.0@, e.1@));
        assert(entry_views(now) =~= bv.take(p as int).push((e.0@, e.1@)) + bv.skip(p as int));
        assert forall|k: int| 0 <= k < now.len() implies exists|j: int| 0 <= j <= i && #[trigger] now[k].0@ == all[j].0 by {
            if k < p {
                let j = choose|j: int| 0 <= j < i && before[k].0@ == all[j].0;
                assert(now[k] == before[k]);
            } else if k > p {
                let j = choose|j: int| 0 <= j < i && before[k - 1].0@ == all[j].0;
                assert(now[k] == before[k - 1]);
            } else {
                assert(now[k].0@ == all[i].0);
            }
        }
    }
}

/// Opening is idempotent: registering a path again gives the same id and changes nothing, and
/// the id leads back to the path.
pub proof fn law_reopening_gives_the_same_id(open: Map<Seq<char>, Seq<char>>, path: Seq<char>)
    ensures
        ({
            let once = open.insert(repo_id_of(path), path);
            &&& once.insert(repo_id_of(path), path) == once
            &&& once.contains_key(repo_id_of(path))
            &&& once[repo_id_of(path)] == path
        }),
{
    let once = open.insert(repo_id_of(path), path);
    assert(once.insert(repo_id_of(path), path) =~= once);
}

/// The registry's view after registering `paths` one by one into an empty registry: each
/// [`Registry::register`] inserts the path under its id.
pub open spec fn registered(paths: Seq<Seq<char>>) -> Map<Seq<char>, Seq<char>>
    decreases paths.len(),
{
    if paths.len() == 0 {
        Map::empty()
    } else {
        registered(paths.drop_last()).insert(repo_id_of(paths.last()), paths.last())
    }
}

/// After any sequence of registrations the registry holds exactly one entry per id that was
/// registered, and that entry's path is the last one registered under the id.
pub proof fn law_registrations_keep_the_last_path(paths: Seq<Seq<char>>, id: Seq<char>)
    ensures
        registered(paths).contains_key(id) <==> exists|i: int| 0 <= i < paths.len() && #[trigger] repo_id_of(paths[i]) == id,
        registered(paths).contains_key(id) ==> exists|i: int|
            0 <= i < paths.len() && #[trigger] repo_id_of(paths[i]) == id && registered(paths)[id] == paths[i]
                && forall|j: int| i < j < paths.len() ==> #[trigger] repo_id_of(paths[j]) != id,
    decreases paths.len(),
{
    if paths.len() > 0 {
        let init = paths.drop_last();
        let n = paths.len() - 1;
        law_registrations_keep_the_last_path(init, id);
        if repo_id_of(paths.last()) == id {
            assert(repo_id_of(paths[n]) == id);
        } else {
            if registered(init).contains_key(id) {
                let i = choose|i: int|
                    0 <= i < init.len() && #[trigger] repo_id_of(init[i]) == id && registered(init)[id] == init[i]
                        && forall|j: int| i < j < init.len() ==> #[trigger] repo_id_of(init[j]) != id;
                assert(repo_id_of(paths[i]) == id);
                assert forall|j: int| i < j < paths.len() implies #[trigger] repo_id_of(paths[j]) != id by {
                    if j < n {
                        assert(paths[j] == init[j]);
                    }
                }
            }
            if exists|i: int| 0 <= i < paths.len() && #[trigger] repo_id_of(paths[i]) == id {
                let i = choose|i: int| 0 <= i < paths.len() && #[trigger] repo_id_of(paths[i]) == id;
                assert(i < n);
                assert(repo_id_of(init[i]) == id);
            }
        }
    }
}

/// Entries in path order, no two naming the same place.
pub open spec fn in_path_order(v: Seq<(Seq<char>, Seq<char>)>) -> bool {
    &&& forall|i: int, j: int| 0 <= i < j < v.len() ==> path_le(#[trigger] v[i].1, #[trigger] v[j].1)
    &&& forall|i: int, j: int|
        0 <= i < j < v.len() ==> path_components(#[trigger] v[i].1) != path_components(#[trigger] v[j].1)
}

proof fn lemma_sorted_same_elements(a: Seq<(Seq<char>, Seq<char>)>, b: Seq<(Seq<char>, Seq<char>)>)
    requires
        in_path_order(a),
        in_path_order(b),
        forall|x: (Seq<char>, Seq<char>)| a.contains(x) <==> b.contains(x),
    ensures
        a == b,
    decreases a.len(),
{
    if a.len() == 0 {
        if b.len() > 0 {
            assert(b.contains(b[0]));
        }
        assert(a =~= b);
    } else {
        assert(a.contains(a[0]));
        let j = choose|j: int| 0 <= j < b.len() && b[j] == a[0];
        assert(b.contains(b[0]));
        let k = choose|k: int| 0 <= k < a.len() && a[k] == b[0];
        // b[0] is no later than a[0] in b, and a[0] no later than b[0] in a
        if j > 0 {
            assert(path_le(b[0].1, b[j].1));
        }
        if k > 0 {
            assert(path_le(a[0].1, a[k].1));
        }
        if j > 0 || k > 0 {
            lemma_path_le_antisymmetric(a[0].1, b[0].1);
            if k > 0 {
                assert(path_components(a[0].1) != path_components(a[k].1));
            } else {
                assert(path_components(b[0].1) != path_components(b[j].1));
            }
        }
        assert(a[0] == b[0]);
        let ra = a.drop_first();
        let rb = b.drop_first();
        assert forall|x: (Seq<char>, Seq<char>)| ra.contains(x) <==> rb.contains(x) by {
            if ra.contains(x) {
                let p = choose|p: int| 0 <= p < ra.len() && ra[p] == x;
                assert(a[p + 1] == x);
                assert(a.contains(x));
                let q = choose|q: int| 0 <= q < b.len() && b[q] == x;
                if q == 0 {
                    assert(path_components(a[0].1) != path_components(a[p + 1].1));
                }
                assert(rb[q - 1] == x);
            }
            if rb.contains(x) {
                let p = choose|p: int| 0 <= p < rb.len() && rb[p] == x;
                assert(b[p + 1] == x);
                assert(b.contains(x));
                let q = choose|q: int| 0 <= q < a.len() && a[q] == x;
                if q == 0 {
                    assert(path_components(b[0].1) != path_components(b[p + 1].1));
                }
                assert(ra[q - 1] == x);
            }
        }
        assert forall|i: int, j: int| 0 <= i < j < ra.len() implies path_le(#[trigger] ra[i].1, #[trigger] ra[j].1) by {
            assert(ra[i] == a[i + 1] && ra[j] == a[j + 1]);
        }
        assert forall|i: int, j: int| 0 <= i < j < ra.len() implies path_components(#[trigger] ra[i].1)
            != path_components(#[trigger] ra[j].1) by {
            assert(ra[i] == a[i + 1] && ra[j] == a[j + 1]);
        }
        assert forall|i: int, j: int| 0 <= i < j < rb.len() implies path_le(#[trigger] rb[i].1, #[trigger] rb[j].1) by {
            assert(rb[i] == b[i + 1] && rb[j] == b[j + 1]);
        }
        assert forall|i: int, j: int| 0 <= i < j < rb.len() implies path_components(#[trigger] rb[i].1)
            != path_components(#[trigger] rb[j].1) by {
            assert(rb[i] == b[i + 1] && rb[j] == b[j + 1]);
        }
        lemma_sorted_same_elements(ra, rb);
        assert(a =~= seq![a[0]] + ra);
        assert(b =~= seq![b[0]] + rb);
    }
}

/// The list is fixed by the registry's map: two lists with unique ids, in path order, that
/// stand for the same map are the same list, as long as no two of its paths name the same
/// place (on such paths `Path`'s order ties, and the order between them is the sort's). So
/// registering a path again, which leaves the map as it was, leaves the list as it was.
pub proof fn law_list_is_fixed_by_the_map(a: Seq<(Seq<char>, Seq<char>)>, b: Seq<(Seq<char>, Seq<char>)>)
    requires
        ids_unique(a),
        ids_unique(b),
        map_of(a) == map_of(b),
        in_path_order(a),
        in_path_order(b),
    ensures
        a == b,
{
    lemma_map_of(a);
    lemma_map_of(b);
    assert forall|x: (Seq<char>, Seq<char>)| a.contains(x) <==> b.contains(x) by {
        if a.contains(x) {
            let i = choose|i: int| 0 <= i < a.len() && a[i] == x;
            assert(map_of(a).contains_key(a[i].0));
            assert(map_of(b).contains_key(x.0));
            let j = choose|j: int| 0 <= j < b.len() && b[j].0 == x.0;
            assert(map_of(b)[b[j].0] == b[j].1);
            assert(b[j] == x);
        }
        if b.contains(x) {
            let i = choose|i: int| 0 <= i < b.len() && b[i] == x;
            assert(map_of(b).contains_key(b[i].0));
            assert(map_of(a).contains_key(x.0));
            let j = choose|j: int| 0 <= j < a.len() && a[j].0 == x.0;
            assert(map_of(a)[a[j].0] == a[j].1);
            assert(a[j] == x);
        }
    }
    lemma_sorted_same_elements(a, b);
}

} // verus!
