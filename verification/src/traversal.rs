//! Traversal of a reflection document.
//!
//! Walking the parameter tree assigns every named field the position —
//! bind group, bind index and byte offset — under which the binding layer
//! looks it up.  The positions accumulate into a [`PositionMap`] keyed by the
//! field's dotted path.

use vstd::prelude::*;
use vstd::string::StringExecFns;
use crate::representation::{Binding, EntryPoint, Parameter, Reflection, Type};

verus! {

/// Where a reflected field lives: its bind group, its bind index within the
/// group, and its byte offset within a uniform block.
#[derive(Clone, Copy, PartialEq, Eq, Structural, Debug)]
pub struct Position {
    pub bind_group: usize,
    pub bind_index: usize,
    pub byte_offset: usize,
}

/// The origin position: group 0, index 0, offset 0.
pub open spec fn default_position() -> Position {
    Position { bind_group: 0, bind_index: 0, byte_offset: 0 }
}

impl Default for Position {
    /// The origin position.
    fn default() -> (r: Position)
        ensures
            r == default_position(),
    {
        Position { bind_group: 0, bind_index: 0, byte_offset: 0 }
    }
}

/// Addition clamped to the machine limit: reflected indices are tiny, but the
/// accumulation must not be able to wrap.
pub open spec fn sat_add(a: int, b: int) -> int {
    if a + b > usize::MAX as int {
        usize::MAX as int
    } else {
        a + b
    }
}

/// Exec counterpart of [`sat_add`].
pub fn sat_add_usize(a: usize, b: usize) -> (r: usize)
    ensures
        r as int == sat_add(a as int, b as int),
{
    if a > usize::MAX - b {
        usize::MAX
    } else {
        a + b
    }
}

/// How one binding moves a position: descriptor slots advance the bind
/// index, register spaces advance the bind group (held at 1 or above
/// afterwards), uniforms advance the byte offset, varyings leave it unchanged.
pub open spec fn apply_binding(p: Position, b: Binding) -> Position {
    match b {
        Binding::VaryingInput { .. } => p,
        Binding::VaryingOutput { .. } => p,
        Binding::DescriptorTableSlot { index, .. } => Position {
            bind_index: sat_add(p.bind_index as int, index as int) as usize,
            ..p
        },
        Binding::SubElementRegisterSpace { index, .. } => {
            let g = sat_add(p.bind_group as int, index as int);
            Position {
                bind_group: (if g < 1 {
                    1int
                } else {
                    g
                }) as usize,
                ..p
            }
        },
        Binding::Uniform { offset, .. } => Position {
            byte_offset: sat_add(p.byte_offset as int, offset as int) as usize,
            ..p
        },
    }
}

/// The fold of [`apply_binding`] over a binding list, front to back.
pub open spec fn apply_bindings(bs: Seq<Binding>, p: Position) -> Position
    decreases bs.len(),
{
    if bs.len() == 0 {
        p
    } else {
        apply_bindings(bs.drop_first(), apply_binding(p, bs.first()))
    }
}

/// Exec counterpart of [`apply_binding`].
pub fn apply_binding_exec(p: Position, b: Binding) -> (r: Position)
    ensures
        r == apply_binding(p, b),
{
    match b {
        Binding::VaryingInput { .. } => p,
        Binding::VaryingOutput { .. } => p,
        Binding::DescriptorTableSlot { index, .. } => Position {
            bind_index: sat_add_usize(p.bind_index, index as usize),
            ..p
        },
        Binding::SubElementRegisterSpace { index, .. } => {
            let g = sat_add_usize(p.bind_group, index as usize);
            Position {
                bind_group: if g < 1 {
                    1
                } else {
                    g
                },
                ..p
            }
        },
        Binding::Uniform { offset, .. } => Position {
            byte_offset: sat_add_usize(p.byte_offset, offset as usize),
            ..p
        },
    }
}

/// The bindings of a parameter as one list: the listed ones first, the
/// single one (if any) last — the order [`BindingsField::collect`] returns.
pub open spec fn bindings_of(param: Parameter) -> Seq<Binding> {
    param.bindings.bindings@ + (match param.bindings.binding {
        Some(b) => seq![b],
        None => Seq::<Binding>::empty(),
    })
}

/// A map from dotted field paths to positions, with each path held once.
pub struct PositionMap {
    pub entries: Vec<(String, Position)>,
}

/// The map denoted by an entry list: later entries shadow earlier ones.
pub open spec fn map_of_entries(s: Seq<(String, Position)>) -> Map<Seq<char>, Position>
    decreases s.len(),
{
    if s.len() == 0 {
        Map::empty()
    } else {
        map_of_entries(s.drop_last()).insert(s.last().0@, s.last().1)
    }
}

/// In an entry list, every key is in the map it denotes, every map key comes
/// from an entry, and under unique keys each entry's value is the map's.
proof fn lemma_map_of_entries(s: Seq<(String, Position)>)
    ensures
        forall|k: Seq<char>|
            map_of_entries(s).contains_key(k) <==> exists|i: int|
                0 <= i < s.len() && (#[trigger] s[i]).0@ == k,
        (forall|i: int, j: int|
            0 <= i < j < s.len() ==> (#[trigger] s[i]).0@ != (#[trigger] s[j]).0@) ==> forall|
            i: int,
        |
            0 <= i < s.len() ==> map_of_entries(s).contains_key((#[trigger] s[i]).0@)
                && map_of_entries(s)[s[i].0@] == s[i].1,
    decreases s.len(),
{
    if s.len() > 0 {
        lemma_map_of_entries(s.drop_last());
        assert forall|k: Seq<char>| map_of_entries(s).contains_key(k) implies exists|i: int|
            0 <= i < s.len() && (#[trigger] s[i]).0@ == k by {
            if k == s.last().0@ {
                assert(s[s.len() - 1].0@ == k);
            } else {
                assert(map_of_entries(s) == map_of_entries(s.drop_last()).insert(
                    s.last().0@,
                    s.last().1,
                ));
                assert(map_of_entries(s.drop_last()).contains_key(k));
                let i = choose|i: int|
                    0 <= i < s.drop_last().len() && (#[trigger] s.drop_last()[i]).0@ == k;
                assert(s.drop_last()[i] == s[i]);
                assert(s[i].0@ == k);
            }
        }
        assert forall|i: int| 0 <= i < s.len() implies map_of_entries(s).contains_key(
            (#[trigger] s[i]).0@,
        ) by {
            assert(map_of_entries(s) == map_of_entries(s.drop_last()).insert(
                s.last().0@,
                s.last().1,
            ));
            if i < s.len() - 1 {
                assert(s.drop_last()[i].0@ == s[i].0@);
            }
        }
        if forall|i: int, j: int|
            0 <= i < j < s.len() ==> (#[trigger] s[i]).0@ != (#[trigger] s[j]).0@ {
            assert forall|a: int, b: int|
                0 <= a < b < s.drop_last().len() implies (#[trigger] s.drop_last()[a]).0@ != (
            #[trigger] s.drop_last()[b]).0@ by {
                assert(s[a].0@ != s[b].0@);
            }
            assert forall|i: int| 0 <= i < s.len() implies map_of_entries(s)[(
            #[trigger] s[i]).0@] == s[i].1 by {
                assert(map_of_entries(s) == map_of_entries(s.drop_last()).insert(
                    s.last().0@,
                    s.last().1,
                ));
                if i < s.len() - 1 {
                    assert(s.drop_last()[i] == s[i]);
                    assert(map_of_entries(s.drop_last())[s[i].0@] == s[i].1);
                    assert(s[i].0@ != s.last().0@);
                }
            }
        }
    }
}

impl PositionMap {
    /// Every path occurs in at most one entry.
    pub open spec fn wf(self) -> bool {
        forall|i: int, j: int|
            0 <= i < j < self.entries@.len() ==> (#[trigger] self.entries@[i]).0@ != (
            #[trigger] self.entries@[j]).0@
    }

    /// The map of paths to positions this value denotes.
    pub open spec fn as_map(self) -> Map<Seq<char>, Position> {
        map_of_entries(self.entries@)
    }

    /// An empty map.
    pub fn new() -> (r: PositionMap)
        ensures
            r.wf(),
            r.as_map() == Map::<Seq<char>, Position>::empty(),
            r.as_map().dom() =~= Set::<Seq<char>>::empty(),
    {
        PositionMap { entries: Vec::new() }
    }

    /// Number of paths held.
    pub fn len(&self) -> (n: usize)
        ensures
            n == self.entries@.len(),
    {
        self.entries.len()
    }

    /// Registers `value` under `key`, replacing what the key held before.
    #[verifier::loop_isolation(false)]
    pub fn insert(&mut self, key: String, value: Position)
        requires
            old(self).wf(),
        ensures
            final(self).wf(),
            final(self).as_map() == old(self).as_map().insert(key@, value),
    {
        let mut i: usize = 0;
        while i < self.entries.len()
            invariant
                i <= self.entries@.len(),
                self.entries@ == old(self).entries@,
                forall|j: int| 0 <= j < i ==> (#[trigger] self.entries@[j]).0@ != key@,
            decreases self.entries@.len() - i,
        {
            if self.entries[i].0 == key {
                let ghost s0 = self.entries@;
                self.entries[i] = (key, value);
                proof {
                    lemma_insert_at(s0, i as int, key, value);
                    assert forall|a: int, b: int|
                        0 <= a < b < self.entries@.len() implies (#[trigger] self.entries@[a]).0@
                        != (#[trigger] self.entries@[b]).0@ by {
                        assert(s0[a].0@ != s0[b].0@);
                    }
                }
                return ;
            }
            i = i + 1;
        }
        let ghost s0 = self.entries@;
        self.entries.push((key, value));
        proof {
            assert(self.entries@.drop_last() =~= s0);
        }
    }

    /// Looks the path of `key` up.
    #[verifier::loop_isolation(false)]
    pub fn get(&self, key: &String) -> (r: Option<Position>)
        requires
            self.wf(),
        ensures
            match r {
                Some(p) => self.as_map().contains_key(key@) && p == self.as_map()[key@],
                None => !self.as_map().contains_key(key@),
            },
    {
        proof {
            lemma_map_of_entries(self.entries@);
        }
        let mut i: usize = 0;
        while i < self.entries.len()
            invariant
                i <= self.entries@.len(),
                forall|j: int| 0 <= j < i ==> (#[trigger] self.entries@[j]).0@ != key@,
            decreases self.entries@.len() - i,
        {
            if self.entries[i].0 == *key {
                return Some(self.entries[i].1);
            }
            i = i + 1;
        }
        None
    }

    /// Whether some field of the program sits in bind group `g`.
    #[verifier::loop_isolation(false)]
    pub fn group_used(&self, g: usize) -> (r: bool)
        requires
            self.wf(),
        ensures
            r == exists|k: Seq<char>|
                self.as_map().dom().contains(k) && (#[trigger] self.as_map()[k]).bind_group
                    == g,
    {
        proof {
            lemma_map_of_entries(self.entries@);
        }
        let mut i: usize = 0;
        while i < self.entries.len()
            invariant
                i <= self.entries@.len(),
                forall|j: int| 0 <= j < i ==> (#[trigger] self.entries@[j]).1.bind_group != g,
            decreases self.entries@.len() - i,
        {
            if self.entries[i].1.bind_group == g {
                proof {
                    let k = self.entries@[i as int].0@;
                    assert(self.as_map().dom().contains(k) && self.as_map()[k].bind_group == g);
                }
                return true;
            }
            i = i + 1;
        }
        proof {
            assert forall|k: Seq<char>|
                self.as_map().dom().contains(k) implies (#[trigger] self.as_map()[k]).bind_group
                != g by {
                let i = choose|i: int|
                    0 <= i < self.entries@.len() && (#[trigger] self.entries@[i]).0@ == k;
                assert(self.as_map()[k] == self.entries@[i].1);
            }
        }
        false
    }

    /// A bound above every bind group the program uses.
    #[verifier::loop_isolation(false)]
    pub fn max_group(&self) -> (r: usize)
        requires
            self.wf(),
        ensures
            forall|k: Seq<char>|
                self.as_map().dom().contains(k) ==> (#[trigger] self.as_map()[k]).bind_group
                    <= r,
    {
        proof {
            lemma_map_of_entries(self.entries@);
        }
        let mut best: usize = 0;
        let mut i: usize = 0;
        while i < self.entries.len()
            invariant
                i <= self.entries@.len(),
                forall|j: int| 0 <= j < i ==> (#[trigger] self.entries@[j]).1.bind_group <= best,
            decreases self.entries@.len() - i,
        {
            if self.entries[i].1.bind_group > best {
                best = self.entries[i].1.bind_group;
            }
            i = i + 1;
        }
        proof {
            assert forall|k: Seq<char>|
                self.as_map().dom().contains(k) implies (#[trigger] self.as_map()[k]).bind_group
                <= best by {
                let i = choose|i: int|
                    0 <= i < self.entries@.len() && (#[trigger] self.entries@[i]).0@ == k;
                assert(self.as_map()[k] == self.entries@[i].1);
            }
        }
        best
    }
}

/// Replacing the entry at `i` by a view-equal key with a new value — under
/// unique keys — denotes inserting that value under the key.
proof fn lemma_insert_at(s: Seq<(String, Position)>, i: int, k2: String, value: Position)
    requires
        0 <= i < s.len(),
        k2@ == s[i].0@,
        forall|a: int, b: int| 0 <= a < b < s.len() ==> (#[trigger] s[a]).0@ != (#[trigger] s[b]).0@,
    ensures
        map_of_entries(s.update(i, (k2, value))) == map_of_entries(s).insert(k2@, value),
    decreases s.len(),
{
    let s2 = s.update(i, (k2, value));
    if i == s.len() - 1 {
        assert(s2.drop_last() =~= s.drop_last());
        assert(map_of_entries(s2) =~= map_of_entries(s).insert(k2@, value));
    } else {
        assert(s2.drop_last() =~= s.drop_last().update(i, (k2, value)));
        assert(s.drop_last()[i] == s[i]);
        lemma_insert_at(s.drop_last(), i, k2, value);
        assert(s.last().0@ != s[i].0@);
        assert(map_of_entries(s2) =~= map_of_entries(s).insert(k2@, value));
    }
}


/// The map after walking one parameter: fold its bindings over the incoming
/// position, and walk its type (if any) under the parameter's name.
pub open spec fn spec_walk_param(
    prefix: Seq<char>,
    param: Parameter,
    pos: Position,
    m: Map<Seq<char>, Position>,
) -> Map<Seq<char>, Position>
    decreases param, 0int,
{
    let pos2 = apply_bindings(bindings_of(param), pos);
    match param.ty {
        Option::None => m,
        Option::Some(ty) => spec_walk_type(prefix, ty, pos2, m, param.name@),
    }
}

/// The map after walking one type under `prefix.name`: a struct registers
/// that path and walks its fields below it; arrays and parameter blocks walk
/// their element type under the same path; every other type registers the
/// path itself.
pub open spec fn spec_walk_type(
    prefix: Seq<char>,
    ty: Type,
    pos: Position,
    m: Map<Seq<char>, Position>,
    name: Seq<char>,
) -> Map<Seq<char>, Position>
    decreases ty, 0int,
{
    match ty {
        Type::Struct { fields, .. } => spec_walk_fields(
            prefix + "."@ + name,
            fields@,
            pos,
            m.insert(prefix + "."@ + name, pos),
            0,
        ),
        Type::Resource { .. } => m.insert(prefix + "."@ + name, pos),
        Type::SamplerState { .. } => m.insert(prefix + "."@ + name, pos),
        Type::Array { element_type, .. } => spec_walk_type(prefix, *element_type, pos, m, name),
        Type::ParameterBlock { element_type, .. } => spec_walk_type(
            prefix,
            *element_type,
            pos,
            m,
            name,
        ),
        _ => m.insert(prefix + "."@ + name, pos),
    }
}

/// The map after walking the fields from index `i` on, left to right, each
/// from the same position.
pub open spec fn spec_walk_fields(
    prefix: Seq<char>,
    fields: Seq<Parameter>,
    pos: Position,
    m: Map<Seq<char>, Position>,
    i: int,
) -> Map<Seq<char>, Position>
    decreases fields, fields.len() - i,
{
    if i < 0 || i >= fields.len() {
        m
    } else {
        spec_walk_fields(prefix, fields, pos, spec_walk_param(prefix, fields[i], pos, m), i + 1)
    }
}

/// The map after walking the entry points from index `i` on: each entry
/// point's parameters are walked under its name, from the origin position.
pub open spec fn spec_walk_eps(
    eps: Seq<EntryPoint>,
    m: Map<Seq<char>, Position>,
    i: int,
) -> Map<Seq<char>, Position>
    decreases eps, eps.len() - i,
{
    if i < 0 || i >= eps.len() {
        m
    } else {
        spec_walk_eps(
            eps,
            spec_walk_fields(eps[i].name@, eps[i].parameters@, default_position(), m, 0),
            i + 1,
        )
    }
}

/// The map after walking a whole reflection document: the global parameters
/// under "params", from the origin position, and the parameters of each
/// entry point under the entry point's name.
pub open spec fn spec_walk_json(r: Reflection, m: Map<Seq<char>, Position>) -> Map<
    Seq<char>,
    Position,
> {
    spec_walk_eps(
        r.entry_points@,
        spec_walk_fields("params"@, r.parameters@, default_position(), m, 0),
        0,
    )
}

/// Joins a path prefix and a field name with a dot.
fn join_key(prefix: &str, name: &String) -> (r: String)
    ensures
        r@ == prefix@ + "."@ + name@,
{
    prefix.to_owned().concat(".").concat(name.as_str())
}

/// Walks one parameter: folds its bindings over `position` and descends into
/// its type under the parameter's name.
#[verifier::loop_isolation(false)]
pub fn walk_param(prefix: &str, param: &Parameter, position: Position, out: &mut PositionMap)
    requires
        old(out).wf(),
    ensures
        final(out).wf(),
        final(out).as_map() == spec_walk_param(prefix@, *param, position, old(out).as_map()),
    decreases param, 0int,
{
    let ghost bseq = bindings_of(*param);
    let mut pos = position;
    proof {
        assert(bseq.skip(0) =~= bseq);
    }
    let mut i: usize = 0;
    while i < param.bindings.bindings.len()
        invariant
            i <= param.bindings.bindings@.len(),
            apply_bindings(bseq.skip(i as int), pos) == apply_bindings(bseq, position),
        decreases param.bindings.bindings@.len() - i,
    {
        let b = param.bindings.bindings[i];
        proof {
            assert(bseq[i as int] == b);
            assert(bseq.skip(i as int).first() == bseq[i as int]);
            assert(bseq.skip(i as int).drop_first() =~= bseq.skip(i as int + 1));
        }
        pos = apply_binding_exec(pos, b);
        i = i + 1;
    }
    if let Some(b) = param.bindings.binding {
        proof {
            assert(bseq.len() == param.bindings.bindings@.len() + 1);
            assert(bseq.skip(i as int).first() == bseq[i as int]);
            assert(bseq[i as int] == b);
            assert(bseq.skip(i as int).drop_first() =~= bseq.skip(bseq.len() as int));
            assert(bseq.skip(bseq.len() as int) =~= Seq::<Binding>::empty());
        }
        let ghost pos0 = pos;
        pos = apply_binding_exec(pos, b);
        proof {
            assert(apply_bindings(Seq::<Binding>::empty(), pos) == pos);
            assert(apply_bindings(bseq.skip(i as int), pos0) == apply_bindings(
                bseq.skip(i as int).drop_first(),
                apply_binding(pos0, bseq.skip(i as int).first()),
            ));
            assert(pos == apply_bindings(bseq, position));
        }
    } else {
        proof {
            assert(bseq.skip(i as int) =~= Seq::<Binding>::empty());
            assert(pos == apply_bindings(bseq, position));
        }
    }
    match &param.ty {
        Option::None => {},
        Option::Some(ty) => {
            walk_type(prefix, ty, pos, out, &param.name);
        },
    }
}

/// Walks one type under `prefix.name`, registering paths as
/// [`spec_walk_type`] describes.
#[verifier::loop_isolation(false)]
pub fn walk_type(prefix: &str, ty: &Type, position: Position, out: &mut PositionMap, name: &String)
    requires
        old(out).wf(),
    ensures
        final(out).wf(),
        final(out).as_map() == spec_walk_type(prefix@, *ty, position, old(out).as_map(), name@),
    decreases ty, 0int,
{
    match ty {
        Type::Struct { fields, .. } => {
            let child = join_key(prefix, name);
            out.insert(child.clone(), position);
            let ghost m1 = out.as_map();
            let mut i: usize = 0;
            while i < fields.len()
                invariant
                    i <= fields@.len(),
                    out.wf(),
                    spec_walk_fields(child@, fields@, position, out.as_map(), i as int)
                        == spec_walk_fields(child@, fields@, position, m1, 0),
                decreases fields@.len() - i,
            {
                proof {
                    assert(decreases_to!(*ty, 0int => fields@[i as int], 0int));
                }
                walk_param(child.as_str(), &fields[i], position, out);
                i = i + 1;
            }
        },
        Type::Resource { .. } => {
            out.insert(join_key(prefix, name), position);
        },
        Type::SamplerState { .. } => {
            out.insert(join_key(prefix, name), position);
        },
        Type::Array { element_type, .. } => {
            walk_type(prefix, &**element_type, position, out, name);
        },
        Type::ParameterBlock { element_type, .. } => {
            walk_type(prefix, &**element_type, position, out, name);
        },
        _ => {
            out.insert(join_key(prefix, name), position);
        },
    }
}

/// Walks a whole reflection document into `out`: the global parameters under
/// "params", each entry point's parameters under its name, all from the
/// origin position.
#[verifier::loop_isolation(false)]
pub fn walk_json(reflection: &Reflection, out: &mut PositionMap)
    requires
        old(out).wf(),
    ensures
        final(out).wf(),
        final(out).as_map() == spec_walk_json(*reflection, old(out).as_map()),
{
    let ghost m0 = out.as_map();
    let mut i: usize = 0;
    while i < reflection.parameters.len()
        invariant
            i <= reflection.parameters@.len(),
            out.wf(),
            spec_walk_fields(
                "params"@,
                reflection.parameters@,
                default_position(),
                out.as_map(),
                i as int,
            ) == spec_walk_fields(
                "params"@,
                reflection.parameters@,
                default_position(),
                m0,
                0,
            ),
        decreases reflection.parameters@.len() - i,
    {
        let position = Position::default();
        walk_param("params", &reflection.parameters[i], position, out);
        i = i + 1;
    }
    let ghost m_mid = out.as_map();
    let mut e: usize = 0;
    while e < reflection.entry_points.len()
        invariant
            e <= reflection.entry_points@.len(),
            out.wf(),
            spec_walk_eps(reflection.entry_points@, out.as_map(), e as int) == spec_walk_eps(
                reflection.entry_points@,
                m_mid,
                0,
            ),
        decreases reflection.entry_points@.len() - e,
    {
        let ep = &reflection.entry_points[e];
        let ghost m_e = out.as_map();
        let mut i: usize = 0;
        while i < ep.parameters.len()
            invariant
                i <= ep.parameters@.len(),
                out.wf(),
                spec_walk_fields(ep.name@, ep.parameters@, default_position(), out.as_map(), i as int)
                    == spec_walk_fields(ep.name@, ep.parameters@, default_position(), m_e, 0),
            decreases ep.parameters@.len() - i,
        {
            let position = Position::default();
            walk_param(ep.name.as_str(), &ep.parameters[i], position, out);
            i = i + 1;
        }
        e = e + 1;
    }
}

} // verus!
