//! A reflected shader program and the builder that assembles its bind
//! groups.
//!
//! [`SlangProgram`] holds the map from dotted field path to position that the
//! traversal produces.  A [`PipelineBuilder`] registers data for individual
//! fields by key, and [`PipelineBuilder::build`] hands each bind group the
//! program uses — with the data registered for its binds — to the caller's
//! [`GroupAssemble`] implementation, failing precisely when the group
//! assembler is missing or some used group got no data.

use vstd::prelude::*;
use crate::key::Key;
use crate::representation::Reflection;
use crate::traversal::{spec_walk_json, walk_json, Position, PositionMap};

verus! {

/// Why building a program or a pipeline failed.
#[derive(Clone, Copy, PartialEq, Eq, Structural, Debug)]
pub enum Error {
    /// The key names no field of the program.
    UknownField,
    /// A bind group the program uses got no data.
    MissingGroup,
    /// A bind within a group got no data.
    MissingBind,
    /// No group assembler was set before building.
    MissingGroupFunction,
}

/// A reflected program: the map from dotted field path to position.
pub struct SlangProgram {
    pub positions: PositionMap,
}

impl SlangProgram {
    /// Builds the program's field map by walking a reflection document.
    pub fn new(reflection: &Reflection) -> (r: SlangProgram)
        ensures
            r.positions.wf(),
            r.positions.as_map() == spec_walk_json(
                *reflection,
                Map::<Seq<char>, Position>::empty(),
            ),
    {
        let mut positions = PositionMap::new();
        walk_json(reflection, &mut positions);
        SlangProgram { positions }
    }

    /// Starts an empty pipeline builder over this program.
    pub fn new_pipeline<T1, G: GroupAssemble<T1>>(&self) -> (r: PipelineBuilder<T1, G>)
        ensures
            r.program == self,
            r.binds@ == Seq::<(usize, usize, T1)>::empty(),
            r.func is None,
    {
        PipelineBuilder { program: self, binds: Vec::new(), func: None }
    }
}

/// What the pipeline builder calls to turn one assembled bind group — the
/// group id and the (bind index, data) pairs registered for it — into the
/// caller's group representation.  Implemented by the library's users.
pub trait GroupAssemble<T1> {
    /// The caller's representation of one finished bind group.
    type Out;

    /// Turns one group's id and entries into that representation.
    fn assemble(&self, group: usize, entries: Vec<(usize, T1)>) -> Self::Out;
}

/// Collects per-field data and assembles it into bind groups.
pub struct PipelineBuilder<'b, T1, G: GroupAssemble<T1>> {
    /// The program whose fields are being bound.
    pub program: &'b SlangProgram,
    /// The data registered so far: (bind group, bind index, data).
    pub binds: Vec<(usize, usize, T1)>,
    /// The group assembler, once set.
    pub func: Option<G>,
}

/// The map denoted by a bind-entry list: later entries shadow earlier ones.
pub open spec fn map_of_binds<T1>(s: Seq<(usize, usize, T1)>) -> Map<(int, int), T1>
    decreases s.len(),
{
    if s.len() == 0 {
        Map::empty()
    } else {
        map_of_binds(s.drop_last()).insert((s.last().0 as int, s.last().1 as int), s.last().2)
    }
}

/// Whether the program places some field in bind group `g`.
pub open spec fn program_uses_group(m: Map<Seq<char>, Position>, g: int) -> bool {
    exists|k: Seq<char>| m.dom().contains(k) && (#[trigger] m[k]).bind_group == g
}

/// Whether the builder holds data for some bind of group `g`.
pub open spec fn builder_has_group<T1>(bm: Map<(int, int), T1>, g: int) -> bool {
    exists|p: (int, int)| #[trigger] bm.dom().contains(p) && p.0 == g
}

/// The group ids below `bound` that the program uses, ascending.
pub open spec fn groups_asc(m: Map<Seq<char>, Position>, bound: int) -> Seq<int>
    decreases bound,
{
    if bound <= 0 {
        Seq::empty()
    } else if program_uses_group(m, bound - 1) {
        groups_asc(m, bound - 1) + seq![bound - 1]
    } else {
        groups_asc(m, bound - 1)
    }
}

/// All group ids the program uses, ascending: group ids are machine words,
/// so every one lies below `usize::MAX + 1`.
pub open spec fn total_groups(m: Map<Seq<char>, Position>) -> Seq<int> {
    groups_asc(m, usize::MAX as int + 1)
}

/// The bind entries whose group the program does not use, in order: what a
/// build leaves behind.
pub open spec fn retained_binds<T1>(
    s: Seq<(usize, usize, T1)>,
    m: Map<Seq<char>, Position>,
) -> Seq<(usize, usize, T1)>
    decreases s.len(),
{
    if s.len() == 0 {
        Seq::empty()
    } else if program_uses_group(m, s.last().0 as int) {
        retained_binds(s.drop_last(), m)
    } else {
        retained_binds(s.drop_last(), m) + seq![s.last()]
    }
}

/// In a bind-entry list, every key pair is in the map it denotes, every map
/// key comes from an entry, and under unique key pairs each entry's data is
/// the map's.
proof fn lemma_map_of_binds<T1>(s: Seq<(usize, usize, T1)>)
    ensures
        forall|p: (int, int)|
            map_of_binds(s).contains_key(p) <==> exists|i: int|
                0 <= i < s.len() && ((#[trigger] s[i]).0 as int, s[i].1 as int) == p,
        (forall|i: int, j: int|
            0 <= i < j < s.len() ==> ((#[trigger] s[i]).0, s[i].1) != ((#[trigger] s[j]).0,
            s[j].1)) ==> forall|i: int|
            0 <= i < s.len() ==> map_of_binds(s).contains_key(
                ((#[trigger] s[i]).0 as int, s[i].1 as int),
            ) && map_of_binds(s)[(s[i].0 as int, s[i].1 as int)] == s[i].2,
    decreases s.len(),
{
    if s.len() > 0 {
        lemma_map_of_binds(s.drop_last());
        assert forall|p: (int, int)| map_of_binds(s).contains_key(p) implies exists|i: int|
            0 <= i < s.len() && ((#[trigger] s[i]).0 as int, s[i].1 as int) == p by {
            if p == (s.last().0 as int, s.last().1 as int) {
                assert(((s[s.len() - 1]).0 as int, s[s.len() - 1].1 as int) == p);
            } else {
                assert(map_of_binds(s.drop_last()).contains_key(p));
                let i = choose|i: int|
                    0 <= i < s.drop_last().len() && ((#[trigger] s.drop_last()[i]).0 as int, s
                        .drop_last()[i].1 as int) == p;
                assert(s.drop_last()[i] == s[i]);
            }
        }
        assert forall|i: int| 0 <= i < s.len() implies map_of_binds(s).contains_key(
            ((#[trigger] s[i]).0 as int, s[i].1 as int),
        ) by {
            assert(map_of_binds(s) == map_of_binds(s.drop_last()).insert(
                (s.last().0 as int, s.last().1 as int),
                s.last().2,
            ));
            if i < s.len() - 1 {
                assert(s.drop_last()[i] == s[i]);
            }
        }
        if forall|i: int, j: int|
            0 <= i < j < s.len() ==> ((#[trigger] s[i]).0, s[i].1) != ((#[trigger] s[j]).0,
            s[j].1) {
            assert forall|a: int, b: int|
                0 <= a < b < s.drop_last().len() implies ((#[trigger] s.drop_last()[a]).0, s
                .drop_last()[a].1) != ((#[trigger] s.drop_last()[b]).0, s.drop_last()[b].1) by {
                assert(s.drop_last()[a] == s[a]);
                assert(s.drop_last()[b] == s[b]);
                assert((s[a].0, s[a].1) != (s[b].0, s[b].1));
            }
            assert forall|i: int| 0 <= i < s.len() implies map_of_binds(s)[(
            (#[trigger] s[i]).0 as int,
            s[i].1 as int,
            )] == s[i].2 by {
                assert(map_of_binds(s) == map_of_binds(s.drop_last()).insert(
                    (s.last().0 as int, s.last().1 as int),
                    s.last().2,
                ));
                if i < s.len() - 1 {
                    assert(s.drop_last()[i] == s[i]);
                    assert(map_of_binds(s.drop_last())[(s[i].0 as int, s[i].1 as int)] == s[i].2);
                    assert((s[i].0, s[i].1) != (s.last().0, s.last().1));
                }
            }
        }
    }
}

/// Replacing the data of the entry at `i` — under unique key pairs — denotes
/// inserting that data under the entry's key pair.
proof fn lemma_binds_insert_at<T1>(s: Seq<(usize, usize, T1)>, i: int, value: T1)
    requires
        0 <= i < s.len(),
        forall|a: int, b: int|
            0 <= a < b < s.len() ==> ((#[trigger] s[a]).0, s[a].1) != ((#[trigger] s[b]).0,
            s[b].1),
    ensures
        map_of_binds(s.update(i, (s[i].0, s[i].1, value))) == map_of_binds(s).insert(
            (s[i].0 as int, s[i].1 as int),
            value,
        ),
    decreases s.len(),
{
    let s2 = s.update(i, (s[i].0, s[i].1, value));
    if i == s.len() - 1 {
        assert(s2.drop_last() =~= s.drop_last());
        assert(map_of_binds(s2) =~= map_of_binds(s).insert((s[i].0 as int, s[i].1 as int), value));
    } else {
        assert(s2.drop_last() =~= s.drop_last().update(i, (s[i].0, s[i].1, value)));
        assert(s.drop_last()[i] == s[i]);
        lemma_binds_insert_at(s.drop_last(), i, value);
        assert((s.last().0, s.last().1) != (s[i].0, s[i].1));
        assert(map_of_binds(s2) =~= map_of_binds(s).insert((s[i].0 as int, s[i].1 as int), value));
    }
}

/// The retained entries are drawn from the original list, so unique key
/// pairs stay unique.
proof fn lemma_retained_binds<T1>(s: Seq<(usize, usize, T1)>, m: Map<Seq<char>, Position>)
    ensures
        forall|i: int|
            0 <= i < retained_binds(s, m).len() ==> s.contains(#[trigger] retained_binds(s, m)[i]),
        (forall|a: int, b: int|
            0 <= a < b < s.len() ==> ((#[trigger] s[a]).0, s[a].1) != ((#[trigger] s[b]).0,
            s[b].1)) ==> forall|a: int, b: int|
            0 <= a < b < retained_binds(s, m).len() ==> ((#[trigger] retained_binds(s, m)[a]).0,
            retained_binds(s, m)[a].1) != ((#[trigger] retained_binds(s, m)[b]).0,
            retained_binds(s, m)[b].1),
    decreases s.len(),
{
    if s.len() > 0 {
        lemma_retained_binds(s.drop_last(), m);
        let r = retained_binds(s, m);
        let rd = retained_binds(s.drop_last(), m);
        assert forall|i: int| 0 <= i < r.len() implies s.contains(#[trigger] r[i]) by {
            if i < rd.len() {
                assert(rd[i] == r[i]);
                let j = choose|j: int| 0 <= j < s.drop_last().len() && s.drop_last()[j] == rd[i];
                assert(s[j] == rd[i]);
            } else {
                assert(r[i] == s.last());
                assert(s[s.len() - 1] == s.last());
            }
        }
        if forall|a: int, b: int|
            0 <= a < b < s.len() ==> ((#[trigger] s[a]).0, s[a].1) != ((#[trigger] s[b]).0,
            s[b].1) {
            assert forall|a: int, b: int|
                0 <= a < b < s.drop_last().len() implies ((#[trigger] s.drop_last()[a]).0, s
                .drop_last()[a].1) != ((#[trigger] s.drop_last()[b]).0, s.drop_last()[b].1) by {
                assert(s.drop_last()[a] == s[a]);
                assert(s.drop_last()[b] == s[b]);
            }
            assert forall|a: int, b: int| 0 <= a < b < r.len() implies ((#[trigger] r[a]).0,
            r[a].1) != ((#[trigger] r[b]).0, r[b].1) by {
                if b < rd.len() {
                    assert(r[a] == rd[a] && r[b] == rd[b]);
                } else {
                    assert(r[b] == s.last());
                    assert(r[a] == rd[a]);
                    assert(s.contains(rd[a]));
                    let j = choose|j: int| 0 <= j < s.len() && s[j] == rd[a];
                    assert(program_uses_group(m, s.last().0 as int) == program_uses_group(
                        m,
                        r[b].0 as int,
                    ));
                    if j == s.len() - 1 {
                        assert(program_uses_group(m, rd[a].0 as int));
                        assert(!program_uses_group(m, rd[a].0 as int));
                    }
                }
            }
        }
    }
}

/// Below a bound past every used group, the ascending group list stops
/// growing.
proof fn lemma_groups_asc_stable(m: Map<Seq<char>, Position>, b1: int, b2: int)
    requires
        b1 <= b2,
        forall|g: int| b1 <= g < b2 ==> !program_uses_group(m, g),
    ensures
        groups_asc(m, b2) == groups_asc(m, b1),
    decreases b2 - b1,
{
    if b1 < b2 {
        lemma_groups_asc_stable(m, b1, b2 - 1);
    }
}

impl<'b, T1, G: GroupAssemble<T1>> PipelineBuilder<'b, T1, G> {
    /// Each (group, bind) pair holds data at most once.
    pub open spec fn wf(self) -> bool {
        forall|i: int, j: int|
            0 <= i < j < self.binds@.len() ==> ((#[trigger] self.binds@[i]).0, self.binds@[i].1)
                != ((#[trigger] self.binds@[j]).0, self.binds@[j].1)
    }

    /// The data registered so far, as a map from (group, bind) to data.
    pub open spec fn binds_map(self) -> Map<(int, int), T1> {
        map_of_binds(self.binds@)
    }

    /// Sets the group assembler.
    pub fn group(&mut self, f: G)
        ensures
            final(self).func == Some(f),
            final(self).binds@ == old(self).binds@,
            final(self).program == old(self).program,
    {
        self.func = Some(f);
    }

    /// Registers `data` for the field `key` names: succeeds exactly when the
    /// program knows the field, placing the data under the field's (group,
    /// bind) pair — replacing what that pair held — and fails with
    /// `UknownField`, changing nothing, when it does not.
    #[verifier::loop_isolation(false)]
    pub fn entry<K: Key>(&mut self, key: &K, data: T1) -> (r: Result<(), Error>)
        requires
            old(self).program.positions.wf(),
            old(self).wf(),
        ensures
            final(self).program == old(self).program,
            final(self).func == old(self).func,
            final(self).wf(),
            match r {
                Ok(()) => {
                    let m = old(self).program.positions.as_map();
                    &&& m.contains_key(key.spec_key())
                    &&& final(self).binds_map() == old(self).binds_map().insert(
                        (m[key.spec_key()].bind_group as int, m[key.spec_key()].bind_index as int),
                        data,
                    )
                },
                Err(e) => {
                    &&& e == Error::UknownField
                    &&& !old(self).program.positions.as_map().contains_key(key.spec_key())
                    &&& final(self).binds@ == old(self).binds@
                },
            },
    {
        let k = key.build();
        let looked_up = self.program.positions.get(&k);
        match looked_up {
            Option::None => Err(Error::UknownField),
            Option::Some(pos) => {
                let g = pos.bind_group;
                let b = pos.bind_index;
                let mut i: usize = 0;
                while i < self.binds.len()
                    invariant
                        i <= self.binds@.len(),
                        self.binds@ == old(self).binds@,
                        self.program == old(self).program,
                        self.func == old(self).func,
                        forall|j: int|
                            0 <= j < i ==> ((#[trigger] self.binds@[j]).0, self.binds@[j].1) != (
                            g,
                            b,
                            ),
                    decreases self.binds@.len() - i,
                {
                    if self.binds[i].0 == g && self.binds[i].1 == b {
                        let ghost s0 = self.binds@;
                        self.binds[i] = (g, b, data);
                        proof {
                            lemma_binds_insert_at(s0, i as int, data);
                            assert(self.binds@ =~= s0.update(i as int, (s0[i as int].0, s0[
                                i as int].1, data)));
                            assert forall|a: int, c: int|
                                0 <= a < c < self.binds@.len() implies ((
                            #[trigger] self.binds@[a]).0, self.binds@[a].1) != ((
                            #[trigger] self.binds@[c]).0, self.binds@[c].1) by {
                                assert((s0[a].0, s0[a].1) != (s0[c].0, s0[c].1));
                            }
                        }
                        return Ok(());
                    }
                    i = i + 1;
                }
                let ghost s0 = self.binds@;
                self.binds.push((g, b, data));
                proof {
                    assert(self.binds@.drop_last() =~= s0);
                }
                Ok(())
            },
        }
    }

    /// Whether the program uses group `g` while the builder holds no data
    /// for it.
    fn group_missing(&self, g: usize) -> (r: bool)
        requires
            self.program.positions.wf(),
            self.wf(),
        ensures
            r == (program_uses_group(self.program.positions.as_map(), g as int)
                && !builder_has_group(self.binds_map(), g as int)),
    {
        self.program.positions.group_used(g) && !self.has_group(g)
    }

    /// Whether the builder holds data for some bind of group `g`.
    #[verifier::loop_isolation(false)]
    fn has_group(&self, g: usize) -> (r: bool)
        requires
            self.wf(),
        ensures
            r == builder_has_group(self.binds_map(), g as int),
    {
        proof {
            lemma_map_of_binds(self.binds@);
        }
        let mut i: usize = 0;
        while i < self.binds.len()
            invariant
                i <= self.binds@.len(),
                forall|j: int| 0 <= j < i ==> (#[trigger] self.binds@[j]).0 != g,
            decreases self.binds@.len() - i,
        {
            if self.binds[i].0 == g {
                proof {
                    let p = (self.binds@[i as int].0 as int, self.binds@[i as int].1 as int);
                    assert(self.binds_map().dom().contains(p) && p.0 == g as int);
                }
                return true;
            }
            i = i + 1;
        }
        proof {
            assert forall|p: (int, int)|
                #[trigger] self.binds_map().dom().contains(p) implies p.0 != g as int by {
                let i = choose|i: int|
                    0 <= i < self.binds@.len() && ((#[trigger] self.binds@[i]).0 as int, self
                        .binds@[i].1 as int) == p;
            }
        }
        false
    }

    /// Moves every entry of group `g` out of `binds`, in registration
    /// order, as (bind index, data) pairs.
    fn take_group(binds: &mut Vec<(usize, usize, T1)>, g: usize) -> (r: Vec<(usize, T1)>) {
        let mut out: Vec<(usize, T1)> = Vec::new();
        let mut i: usize = 0;
        while i < binds.len()
            decreases binds@.len() - i,
        {
            if binds[i].0 == g {
                let e = binds.remove(i);
                out.push((e.1, e.2));
            } else {
                i = i + 1;
            }
        }
        out
    }

    /// Assembles the pipeline's bind groups.  Fails with
    /// `MissingGroupFunction`, changing nothing, exactly when no assembler
    /// was set; fails with `MissingGroup`, changing nothing, exactly when
    /// some group the program uses got no data.  Otherwise hands every used
    /// group — ascending by group id — with its registered entries to the
    /// assembler, returns the assembled groups (one per used group), and
    /// leaves behind exactly the entries of the groups the program does not
    /// use.
    #[verifier::loop_isolation(false)]
    #[verifier::rlimit(30)]
    pub fn build(&mut self) -> (r: Result<Vec<G::Out>, Error>)
        requires
            old(self).program.positions.wf(),
            old(self).wf(),
        ensures
            final(self).program == old(self).program,
            final(self).func == old(self).func,
            match r {
                Ok(v) => {
                    let m = old(self).program.positions.as_map();
                    &&& old(self).func is Some
                    &&& forall|g: int|
                        program_uses_group(m, g) ==> builder_has_group(
                            old(self).binds_map(),
                            g,
                        )
                    &&& v@.len() == total_groups(m).len()
                    &&& final(self).binds@ == retained_binds(old(self).binds@, m)
                    &&& final(self).wf()
                },
                Err(Error::MissingGroupFunction) => {
                    &&& old(self).func is None
                    &&& final(self).binds@ == old(self).binds@
                },
                Err(Error::MissingGroup) => {
                    let m = old(self).program.positions.as_map();
                    &&& old(self).func is Some
                    &&& exists|g: int|
                        program_uses_group(m, g) && !builder_has_group(old(self).binds_map(), g)
                    &&& final(self).binds@ == old(self).binds@
                },
                Err(_) => false,
            },
    {
        let ghost m = self.program.positions.as_map();
        if self.func.is_none() {
            return Err(Error::MissingGroupFunction);
        }
        let max = self.program.positions.max_group();
        proof {
            assert forall|g: int| program_uses_group(m, g) implies 0 <= g <= max as int by {
                let k = choose|k: Seq<char>| m.dom().contains(k) && (#[trigger] m[k]).bind_group
                    == g;
            }
        }

        // First pass, read-only: every group the program uses must hold data.
        let mut g: usize = 0;
        while g < max
            invariant
                g <= max,
                forall|h: int|
                    0 <= h < g ==> program_uses_group(m, h) ==> builder_has_group(
                        self.binds_map(),
                        h,
                    ),
                self.binds@ == old(self).binds@,
                self.func == old(self).func,
                self.program == old(self).program,
            decreases max - g,
        {
            if self.group_missing(g) {
                return Err(Error::MissingGroup);
            }
            g = g + 1;
        }
        if self.group_missing(max) {
            return Err(Error::MissingGroup);
        }
        proof {
            assert(forall|h: int|
                program_uses_group(m, h) ==> builder_has_group(self.binds_map(), h));
        }

        // Separate the entries the program consumes from those it leaves.
        let ghost orig = self.binds@;
        let mut kept: Vec<(usize, usize, T1)> = Vec::new();
        let mut consumed: Vec<(usize, usize, T1)> = Vec::new();
        let ghost mut k: int = 0;
        while self.binds.len() > 0
            invariant
                0 <= k <= orig.len(),
                self.binds@ == orig.skip(k),
                kept@ == retained_binds(orig.take(k), m),
                self.func == old(self).func,
                self.program == old(self).program,
            decreases self.binds@.len(),
        {
            let e = self.binds.remove(0);
            proof {
                assert(e == orig[k]);
                assert(orig.take(k + 1).drop_last() =~= orig.take(k));
                assert(orig.take(k + 1).last() == orig[k]);
            }
            if self.program.positions.group_used(e.0) {
                consumed.push(e);
            } else {
                kept.push(e);
            }
            proof {
                k = k + 1;
                assert(self.binds@ =~= orig.skip(k));
            }
        }
        proof {
            assert(orig.take(orig.len() as int) =~= orig);
        }
        self.binds = kept;

        // Assemble the used groups in ascending order.
        let f = match &self.func {
            Option::None => {
                return Err(Error::MissingGroupFunction);
            },
            Option::Some(fr) => fr,
        };
        let mut out: Vec<G::Out> = Vec::new();
        let mut g: usize = 0;
        while g < max
            invariant
                g <= max,
                out@.len() == groups_asc(m, g as int).len(),
                self.program == old(self).program,
            decreases max - g,
        {
            if self.program.positions.group_used(g) {
                let entries = Self::take_group(&mut consumed, g);
                out.push(f.assemble(g, entries));
            }
            g = g + 1;
        }
        if self.program.positions.group_used(max) {
            let entries = Self::take_group(&mut consumed, max);
            out.push(f.assemble(max, entries));
        }
        proof {
            assert(out@.len() == groups_asc(m, max as int + 1).len());
        }
        proof {
            lemma_groups_asc_stable(m, max as int + 1, usize::MAX as int + 1);
            lemma_retained_binds(old(self).binds@, m);
        }
        Ok(out)
    }
}

} // verus!
