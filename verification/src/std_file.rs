//! STD files: the backgrounds of stages.

pub mod arg_layout;
pub mod binary;
pub mod compile;
pub mod format;
pub mod described;
pub mod layout;
pub mod meta;
pub mod round_trip;

use crate::float32::F32;
use crate::ident::Ident;
use crate::instr::{instrs_view, Instr, InstrV};
use crate::pos::Sp;
use indexmap::IndexMap;
use vstd::prelude::*;

verus! {

/// Game-independent representation of a STD file.
#[derive(Debug)]
pub struct StdFile {
    pub unknown: u32,
    /// The objects by their names, in the order of their numbers.
    pub objects: IndexMap<String, Object>,
    pub instances: Vec<Instance>,
    pub script: Vec<Instr>,
    pub extra: StdExtra,
}

#[derive(Debug, Clone, PartialEq, Eq)]
pub enum StdExtra {
    Th06 { stage_name: Vec<u8>, bgm: [Std06Bgm; 4] },
    Th10 { anm_path: Vec<u8> },
}

#[derive(Debug, Clone, PartialEq, Eq)]
pub struct Std06Bgm {
    pub path: Vec<u8>,
    pub name: Vec<u8>,
}

#[derive(Debug, Clone)]
pub struct Object {
    pub unknown: u16,
    pub pos: [F32; 3],
    pub size: [F32; 3],
    pub quads: Vec<Quad>,
}

#[derive(Debug, Clone)]
pub struct Quad {
    pub anm_script: u16,
    pub extra: QuadExtra,
}

#[derive(Debug, Clone)]
pub enum QuadExtra {
    /// Type 0 quad.
    Rect { pos: [F32; 3], size: [F32; 2] },
    /// Type 1 quad. Only available in IN and PoFV.
    Strip { start: [F32; 3], end: [F32; 3], width: F32 },
}

#[derive(Debug, Clone)]
pub struct Instance {
    pub object: Sp<Ident>,
    pub unknown: u16,
    pub pos: [F32; 3],
}

// =============================================================================
// Views

#[verifier::ext_equal]
pub ghost struct StdFileV {
    pub unknown: u32,
    pub objects: Seq<(Seq<char>, ObjectV)>,
    pub instances: Seq<InstanceV>,
    pub script: Seq<InstrV>,
    pub extra: ExtraV,
}

#[verifier::ext_equal]
pub ghost enum ExtraV {
    Th06 { stage_name: Seq<u8>, bgm: Seq<BgmV> },
    Th10 { anm_path: Seq<u8> },
}

#[verifier::ext_equal]
pub ghost struct BgmV {
    pub path: Seq<u8>,
    pub name: Seq<u8>,
}

#[verifier::ext_equal]
pub ghost struct ObjectV {
    pub unknown: u16,
    pub pos: Seq<F32>,
    pub size: Seq<F32>,
    pub quads: Seq<QuadV>,
}

#[verifier::ext_equal]
pub ghost struct QuadV {
    pub anm_script: u16,
    pub extra: QuadExtraV,
}

#[verifier::ext_equal]
pub ghost enum QuadExtraV {
    Rect { pos: Seq<F32>, size: Seq<F32> },
    Strip { start: Seq<F32>, end: Seq<F32>, width: F32 },
}

#[verifier::ext_equal]
pub ghost struct InstanceV {
    /// The name of the object.
    pub object: Seq<char>,
    pub unknown: u16,
    pub pos: Seq<F32>,
}

impl View for QuadExtra {
    type V = QuadExtraV;

    open spec fn view(&self) -> QuadExtraV {
        match *self {
            QuadExtra::Rect { pos, size } => QuadExtraV::Rect { pos: pos@, size: size@ },
            QuadExtra::Strip { start, end, width } => QuadExtraV::Strip {
                start: start@,
                end: end@,
                width,
            },
        }
    }
}

impl View for Quad {
    type V = QuadV;

    open spec fn view(&self) -> QuadV {
        QuadV { anm_script: self.anm_script, extra: self.extra@ }
    }
}

pub open spec fn quads_view(quads: Seq<Quad>) -> Seq<QuadV> {
    quads.map_values(|q: Quad| q@)
}

impl View for Object {
    type V = ObjectV;

    open spec fn view(&self) -> ObjectV {
        ObjectV {
            unknown: self.unknown,
            pos: self.pos@,
            size: self.size@,
            quads: quads_view(self.quads@),
        }
    }
}

impl View for Instance {
    type V = InstanceV;

    open spec fn view(&self) -> InstanceV {
        InstanceV { object: self.object.value@, unknown: self.unknown, pos: self.pos@ }
    }
}

pub open spec fn instances_view(instances: Seq<Instance>) -> Seq<InstanceV> {
    instances.map_values(|i: Instance| i@)
}

impl View for Std06Bgm {
    type V = BgmV;

    open spec fn view(&self) -> BgmV {
        BgmV { path: self.path@, name: self.name@ }
    }
}

pub open spec fn bgms_view(bgm: Seq<Std06Bgm>) -> Seq<BgmV> {
    bgm.map_values(|b: Std06Bgm| b@)
}

impl View for StdExtra {
    type V = ExtraV;

    open spec fn view(&self) -> ExtraV {
        match *self {
            StdExtra::Th06 { stage_name, bgm } => ExtraV::Th06 {
                stage_name: stage_name@,
                bgm: bgms_view(bgm@),
            },
            StdExtra::Th10 { anm_path } => ExtraV::Th10 { anm_path: anm_path@ },
        }
    }
}

impl View for StdFile {
    type V = StdFileV;

    open spec fn view(&self) -> StdFileV {
        StdFileV {
            unknown: self.unknown,
            objects: objects_view(self.objects),
            instances: instances_view(self.instances@),
            script: instrs_view(self.script@),
            extra: self.extra@,
        }
    }
}

// =============================================================================
// The map of objects

/// `indexmap::IndexMap`, a map that remembers the order in which its keys were inserted.
#[verifier::external_type_specification]
#[verifier::external_body]
#[verifier::reject_recursive_types(K)]
#[verifier::reject_recursive_types(V)]
#[verifier::reject_recursive_types(S)]
pub struct ExIndexMap<K, V, S>(indexmap::IndexMap<K, V, S>);

/// The keys and values of a map of objects, in their order.
pub uninterp spec fn object_entries(m: IndexMap<String, Object>) -> Seq<(Seq<char>, Object)>;

/// The names and objects of a map, in their order.
pub open spec fn objects_view(m: IndexMap<String, Object>) -> Seq<(Seq<char>, ObjectV)> {
    object_entries(m).map_values(|e: (Seq<char>, Object)| (e.0, e.1@))
}

/// Where a key is in a list of entries.
pub open spec fn key_index<T>(entries: Seq<(Seq<char>, T)>, key: Seq<char>) -> Option<int>
    decreases entries.len(),
{
    if entries.len() == 0 {
        None
    } else if key_index(entries.drop_last(), key) is Some {
        key_index(entries.drop_last(), key)
    } else if entries.last().0 == key {
        Some(entries.len() - 1)
    } else {
        None
    }
}

/// A list of entries with one more; an entry with the same key has its value replaced.
pub open spec fn with_entry<T>(entries: Seq<(Seq<char>, T)>, key: Seq<char>, value: T) -> Seq<
    (Seq<char>, T),
> {
    match key_index(entries, key) {
        Some(i) => entries.update(i, (key, value)),
        None => entries.push((key, value)),
    }
}

/// `IndexMap::new`: the new map has no entries.
#[verifier::external_body]
pub(crate) fn new_objects() -> (r: IndexMap<String, Object>)
    ensures
        object_entries(r) == Seq::<(Seq<char>, Object)>::empty(),
{
    IndexMap::new()
}

/// `IndexMap::insert`: a new key goes to the end; the value of a key that is there already is
/// replaced, and the key keeps its place.
#[verifier::external_body]
pub(crate) fn insert_object(m: &mut IndexMap<String, Object>, name: String, object: Object)
    ensures
        object_entries(*final(m)) == with_entry(object_entries(*old(m)), name@, object),
{
    m.insert(name, object);
}

/// `IndexMap::len`: the number of entries.
#[verifier::external_body]
pub(crate) fn num_objects(m: &IndexMap<String, Object>) -> (r: usize)
    ensures
        r == object_entries(*m).len(),
{
    m.len()
}

/// `IndexMap::get_index`: the entry at an index below the number of entries.
#[verifier::external_body]
pub(crate) fn object_at(m: &IndexMap<String, Object>, index: usize) -> (r: Option<
    (&String, &Object),
>)
    ensures
        r is Some <==> index < object_entries(*m).len(),
        r matches Some((name, object)) ==> object_entries(*m)[index as int] == (name@, *object),
{
    m.get_index(index)
}

/// `IndexMap::get_index_of`: the index of a key, which is the only one that the key has.
#[verifier::external_body]
pub(crate) fn object_index(m: &IndexMap<String, Object>, name: &str) -> (r: Option<usize>)
    ensures
        match r {
            Some(i) => key_index(object_entries(*m), name@) == Some(i as int) && i
                < object_entries(*m).len(),
            None => key_index(object_entries(*m), name@) is None,
        },
{
    m.get_index_of(name)
}

/// Views of entries have their keys where the entries have them.
pub proof fn lemma_key_index_view(entries: Seq<(Seq<char>, Object)>, key: Seq<char>)
    ensures
        key_index(entries.map_values(|e: (Seq<char>, Object)| (e.0, e.1@)), key) == key_index(
            entries,
            key,
        ),
        key_index(entries, key) matches Some(i) ==> 0 <= i < entries.len() && entries[i].0 == key,
        key_index(entries, key) is None ==> forall|i: int|
            0 <= i < entries.len() ==> (#[trigger] entries[i]).0 != key,
    decreases entries.len(),
{
    let views = entries.map_values(|e: (Seq<char>, Object)| (e.0, e.1@));
    if entries.len() > 0 {
        lemma_key_index_view(entries.drop_last(), key);
        assert(views.drop_last() =~= entries.drop_last().map_values(
            |e: (Seq<char>, Object)| (e.0, e.1@),
        ));
        if key_index(entries, key) is None {
            assert forall|i: int| 0 <= i < entries.len() implies (#[trigger] entries[i]).0
                != key by {
                if i < entries.len() - 1 {
                    assert(entries.drop_last()[i] == entries[i]);
                }
            }
        }
    }
}

/// Inserting an object into a map inserts its view into the view of the map.
pub proof fn lemma_insert_view(entries: Seq<(Seq<char>, Object)>, key: Seq<char>, object: Object)
    ensures
        with_entry(entries, key, object).map_values(|e: (Seq<char>, Object)| (e.0, e.1@))
            == with_entry(
            entries.map_values(|e: (Seq<char>, Object)| (e.0, e.1@)),
            key,
            object@,
        ),
{
    lemma_key_index_view(entries, key);
    let views = entries.map_values(|e: (Seq<char>, Object)| (e.0, e.1@));
    assert(with_entry(entries, key, object).map_values(|e: (Seq<char>, Object)| (e.0, e.1@))
        =~= with_entry(views, key, object@));
}

} // verus!
