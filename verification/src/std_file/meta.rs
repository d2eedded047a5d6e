//! The `meta` sections of STD files.

use crate::ident::Ident;
use crate::meta::{
    built_field, bytes_field, bytes_meta, expect_field_spec, field_names, float_field, float_meta,
    floats_field, floats_meta, from_meta_error_view, get_field_spec, int_field, int_meta,
    law_bytes_round_trip, law_floats_round_trip, law_list_round_trip, lemma_field_found,
    lemma_field_missing, lemma_literal_fields, lemma_literal_floats, lemma_literal_list,
    lemma_none_unexpected, list_field, list_meta, literal_fields, literal_meta, make_bytes,
    make_float, make_floats, make_int, make_list, meta_int, meta_object, meta_variant, object_meta,
    read_int, read_object, read_variant, unexpected_field, values_view, variant_meta, BuildObject,
    FieldsV, FromMeta, FromMetaError, MetaError, MetaErrorV, ParseObject, ToMeta,
};
use crate::pos::{sp_null, Sp};
use crate::script::{
    field_seq_view, fields_view, ident_view, lemma_field_seq_view, meta_view, Fields, Meta, MetaV,
};
use crate::std_file::binary::{object_wf, quad_wf};
use crate::std_file::format::FileFormat;
use crate::std_file::{
    insert_object, instances_view, key_index, lemma_insert_view, new_objects, num_objects,
    object_at, object_entries, objects_view, quads_view, with_entry, BgmV, Instance, InstanceV,
    Object, ObjectV, Quad, QuadExtra, QuadExtraV, QuadV, Std06Bgm, StdFile, StdFileV,
};
use indexmap::IndexMap;
use vstd::prelude::*;
use vstd::utf8::valid_utf8;

verus! {

// =============================================================================
// Music

impl FromMeta for Std06Bgm {
    open spec fn from_meta_spec(m: Sp<MetaV>) -> Result<BgmV, MetaErrorV> {
        match meta_object(m) {
            Err(e) => Err(e),
            Ok(fields) => match bytes_field(fields, "path"@) {
                Err(e) => Err(e),
                Ok(path) => match bytes_field(fields, "name"@) {
                    Err(e) => Err(e),
                    Ok(name) => match unexpected_field(fields.value, seq!["path"@, "name"@]) {
                        Some(e) => Err(e),
                        None => Ok(BgmV { path, name }),
                    },
                },
            },
        }
    }

    fn from_meta(meta: &Sp<Meta>) -> (r: Result<Self, MetaError>) {
        let fields = match read_object(meta) {
            Ok(x) => x,
            Err(e) => return Err(e),
        };
        let mut m = ParseObject::new(fields);
        let path = match m.expect_bytes("path") {
            Ok(x) => x,
            Err(e) => return Err(e),
        };
        let name = match m.expect_bytes("name") {
            Ok(x) => x,
            Err(e) => return Err(e),
        };
        assert(m.view_used() =~= seq!["path"@, "name"@]);
        match m.finish() {
            Ok(_) => Ok(Std06Bgm { path, name }),
            Err(e) => Err(e),
        }
    }
}

impl ToMeta for Std06Bgm {
    open spec fn to_meta_spec(v: BgmV) -> MetaV {
        object_meta(
            seq![built_field("path"@, bytes_meta(v.path)), built_field("name"@, bytes_meta(v.name))],
        )
    }

    fn to_meta(&self) -> (r: Sp<Meta>) {
        let mut b = BuildObject::new();
        b.field("path", make_bytes(&self.path));
        b.field("name", make_bytes(&self.name));
        proof {
            assert(b.built() =~= seq![
                built_field("path"@, bytes_meta(self.path@)),
                built_field("name"@, bytes_meta(self.name@)),
            ]);
        }
        b.build()
    }
}

/// Music whose strings are UTF-8 is read back from the `meta` that was made of it.
pub proof fn law_bgm_meta_round_trip(x: BgmV)
    requires
        valid_utf8(x.path),
        valid_utf8(x.name),
    ensures
        Std06Bgm::from_meta_spec(sp_null(Std06Bgm::to_meta_spec(x))) == Ok::<BgmV, MetaErrorV>(x),
{
    let fields = seq![
        built_field("path"@, bytes_meta(x.path)),
        built_field("name"@, bytes_meta(x.name)),
    ];
    reveal_strlit("path");
    reveal_strlit("name");
    assert("path"@[0] == 'p');
    assert("name"@[0] == 'n');
    assert(field_names(fields) =~= seq!["path"@, "name"@]);
    lemma_field_found(fields, 0);
    lemma_field_found(fields, 1);
    lemma_own_names(fields);
    law_bytes_round_trip(x.path);
    law_bytes_round_trip(x.name);
}

/// No field is unexpected where the names of the fields are those that are allowed.
proof fn lemma_own_names(fields: FieldsV)
    ensures
        unexpected_field(fields, field_names(fields)) is None,
{
    assert forall|i: int| 0 <= i < fields.len() implies field_names(fields).contains(
        (#[trigger] fields[i]).0.value,
    ) by {
        assert(field_names(fields)[i] == fields[i].0.value);
    }
    lemma_none_unexpected(fields, field_names(fields));
}

// =============================================================================
// Quads

/// A flat quad.
pub open spec fn rect_of(fields: Sp<FieldsV>) -> Result<QuadV, MetaErrorV> {
    match int_field(fields, "anm_script"@) {
        Err(e) => Err(e),
        Ok(anm_script) => match floats_field(fields, "pos"@, 3) {
            Err(e) => Err(e),
            Ok(pos) => match floats_field(fields, "size"@, 2) {
                Err(e) => Err(e),
                Ok(size) => match unexpected_field(
                    fields.value,
                    seq!["anm_script"@, "pos"@, "size"@],
                ) {
                    Some(e) => Err(e),
                    None => Ok(
                        QuadV {
                            anm_script: anm_script as u16,
                            extra: QuadExtraV::Rect { pos, size },
                        },
                    ),
                },
            },
        },
    }
}

/// A quad that follows a line.
pub open spec fn strip_of(fields: Sp<FieldsV>) -> Result<QuadV, MetaErrorV> {
    match int_field(fields, "anm_script"@) {
        Err(e) => Err(e),
        Ok(anm_script) => match floats_field(fields, "start"@, 3) {
            Err(e) => Err(e),
            Ok(start) => match floats_field(fields, "end"@, 3) {
                Err(e) => Err(e),
                Ok(end) => match float_field(fields, "width"@) {
                    Err(e) => Err(e),
                    Ok(width) => match unexpected_field(
                        fields.value,
                        seq!["anm_script"@, "start"@, "end"@, "width"@],
                    ) {
                        Some(e) => Err(e),
                        None => Ok(
                            QuadV {
                                anm_script: anm_script as u16,
                                extra: QuadExtraV::Strip { start, end, width },
                            },
                        ),
                    },
                },
            },
        },
    }
}

fn read_rect(fields: &Sp<Fields>) -> (r: Result<Quad, MetaError>)
    ensures
        match rect_of(fields_view(*fields)) {
            Ok(v) => r matches Ok(x) && x@ == v,
            Err(e) => r matches Err(k) && from_meta_error_view(k) == e,
        },
{
    let mut m = ParseObject::new(fields);
    let anm_script: i32 = match m.expect_int("anm_script") {
        Ok(x) => x,
        Err(e) => return Err(e),
    };
    let pos = match m.expect_floats_3("pos") {
        Ok(x) => x,
        Err(e) => return Err(e),
    };
    let size = match m.expect_floats_2("size") {
        Ok(x) => x,
        Err(e) => return Err(e),
    };
    assert(m.view_used() =~= seq!["anm_script"@, "pos"@, "size"@]);
    match m.finish() {
        Ok(_) => Ok(
            Quad {
                anm_script: #[verifier::truncate] (anm_script as u16),
                extra: QuadExtra::Rect { pos, size },
            },
        ),
        Err(e) => Err(e),
    }
}

fn read_strip(fields: &Sp<Fields>) -> (r: Result<Quad, MetaError>)
    ensures
        match strip_of(fields_view(*fields)) {
            Ok(v) => r matches Ok(x) && x@ == v,
            Err(e) => r matches Err(k) && from_meta_error_view(k) == e,
        },
{
    let mut m = ParseObject::new(fields);
    let anm_script: i32 = match m.expect_int("anm_script") {
        Ok(x) => x,
        Err(e) => return Err(e),
    };
    let start = match m.expect_floats_3("start") {
        Ok(x) => x,
        Err(e) => return Err(e),
    };
    let end = match m.expect_floats_3("end") {
        Ok(x) => x,
        Err(e) => return Err(e),
    };
    let width = match m.expect_float("width") {
        Ok(x) => x,
        Err(e) => return Err(e),
    };
    assert(m.view_used() =~= seq!["anm_script"@, "start"@, "end"@, "width"@]);
    match m.finish() {
        Ok(_) => Ok(
            Quad {
                anm_script: #[verifier::truncate] (anm_script as u16),
                extra: QuadExtra::Strip { start, end, width },
            },
        ),
        Err(e) => Err(e),
    }
}

impl FromMeta for Quad {
    open spec fn from_meta_spec(m: Sp<MetaV>) -> Result<QuadV, MetaErrorV> {
        match meta_variant(m) {
            Err(e) => Err(e),
            Ok((name, fields)) => if name.value == "rect"@ {
                rect_of(fields)
            } else if name.value == "strip"@ {
                strip_of(fields)
            } else {
                Err(FromMetaError::UnexpectedVariant { name })
            },
        }
    }

    fn from_meta(meta: &Sp<Meta>) -> (r: Result<Self, MetaError>) {
        let (name, fields) = match read_variant(meta) {
            Ok(x) => x,
            Err(e) => return Err(e),
        };
        if name.value.is("rect") {
            read_rect(fields)
        } else if name.value.is("strip") {
            read_strip(fields)
        } else {
            Err(FromMetaError::UnexpectedVariant { name: name.clone() })
        }
    }
}

/// The fields of a quad.
pub open spec fn quad_fields(v: QuadV) -> FieldsV {
    match v.extra {
        QuadExtraV::Rect { pos, size } => seq![
            built_field("anm_script"@, int_meta(v.anm_script as i32)),
            built_field("pos"@, floats_meta(pos)),
            built_field("size"@, floats_meta(size)),
        ],
        QuadExtraV::Strip { start, end, width } => seq![
            built_field("anm_script"@, int_meta(v.anm_script as i32)),
            built_field("start"@, floats_meta(start)),
            built_field("end"@, floats_meta(end)),
            built_field("width"@, float_meta(width)),
        ],
    }
}

impl ToMeta for Quad {
    open spec fn to_meta_spec(v: QuadV) -> MetaV {
        match v.extra {
            QuadExtraV::Rect { .. } => variant_meta("rect"@, quad_fields(v)),
            QuadExtraV::Strip { .. } => variant_meta("strip"@, quad_fields(v)),
        }
    }

    fn to_meta(&self) -> (r: Sp<Meta>) {
        let mut b = BuildObject::new();
        b.field("anm_script", make_int(self.anm_script as i32));
        match &self.extra {
            QuadExtra::Rect { pos, size } => {
                b.field("pos", make_floats(pos.as_slice()));
                b.field("size", make_floats(size.as_slice()));
                assert(b.built() =~= quad_fields(self@));
                b.build_variant(&Ident::new("rect"))
            },
            QuadExtra::Strip { start, end, width } => {
                b.field("start", make_floats(start.as_slice()));
                b.field("end", make_floats(end.as_slice()));
                b.field("width", make_float(*width));
                assert(b.built() =~= quad_fields(self@));
                b.build_variant(&Ident::new("strip"))
            },
        }
    }
}

proof fn lemma_u16_as_i32(x: u16)
    ensures
        (x as i32) as u16 == x,
{
    assert((x as i32) as u16 == x) by (bit_vector);
}

/// A quad is read back from the `meta` that was made of it.
pub proof fn law_quad_meta_round_trip(x: QuadV)
    requires
        quad_wf(x),
    ensures
        Quad::from_meta_spec(sp_null(Quad::to_meta_spec(x))) == Ok::<QuadV, MetaErrorV>(x),
{
    let fields = quad_fields(x);
    reveal_strlit("anm_script");
    assert("anm_script"@[0] == 'a');
    lemma_u16_as_i32(x.anm_script);
    match x.extra {
        QuadExtraV::Rect { pos, size } => {
            reveal_strlit("pos");
            reveal_strlit("size");
            assert("pos"@[0] == 'p');
            assert("size"@[0] == 's');
            assert(field_names(fields) =~= seq!["anm_script"@, "pos"@, "size"@]);
            lemma_field_found(fields, 0);
            lemma_field_found(fields, 1);
            lemma_field_found(fields, 2);
            lemma_own_names(fields);
            law_floats_round_trip(pos);
            law_floats_round_trip(size);
        },
        QuadExtraV::Strip { start, end, width } => {
            reveal_strlit("start");
            reveal_strlit("end");
            reveal_strlit("width");
            reveal_strlit("rect");
            reveal_strlit("strip");
            assert("start"@[0] == 's');
            assert("end"@[0] == 'e');
            assert("width"@[0] == 'w');
            assert("rect"@[0] == 'r');
            assert("strip"@[0] == 's');
            assert(field_names(fields) =~= seq!["anm_script"@, "start"@, "end"@, "width"@]);
            lemma_field_found(fields, 0);
            lemma_field_found(fields, 1);
            lemma_field_found(fields, 2);
            lemma_field_found(fields, 3);
            lemma_own_names(fields);
            law_floats_round_trip(start);
            law_floats_round_trip(end);
        },
    }
}

// =============================================================================
// Objects

impl FromMeta for Object {
    open spec fn from_meta_spec(m: Sp<MetaV>) -> Result<ObjectV, MetaErrorV> {
        match meta_object(m) {
            Err(e) => Err(e),
            Ok(fields) => match int_field(fields, "unknown"@) {
                Err(e) => Err(e),
                Ok(unknown) => match floats_field(fields, "pos"@, 3) {
                    Err(e) => Err(e),
                    Ok(pos) => match floats_field(fields, "size"@, 3) {
                        Err(e) => Err(e),
                        Ok(size) => match list_field::<Quad>(fields, "quads"@) {
                            Err(e) => Err(e),
                            Ok(quads) => match unexpected_field(
                                fields.value,
                                seq!["unknown"@, "pos"@, "size"@, "quads"@],
                            ) {
                                Some(e) => Err(e),
                                None => Ok(
                                    ObjectV { unknown: unknown as u16, pos, size, quads },
                                ),
                            },
                        },
                    },
                },
            },
        }
    }

    fn from_meta(meta: &Sp<Meta>) -> (r: Result<Self, MetaError>) {
        let fields = match read_object(meta) {
            Ok(x) => x,
            Err(e) => return Err(e),
        };
        let mut m = ParseObject::new(fields);
        let unknown: i32 = match m.expect_int("unknown") {
            Ok(x) => x,
            Err(e) => return Err(e),
        };
        let pos = match m.expect_floats_3("pos") {
            Ok(x) => x,
            Err(e) => return Err(e),
        };
        let size = match m.expect_floats_3("size") {
            Ok(x) => x,
            Err(e) => return Err(e),
        };
        let quads: Vec<Quad> = match m.expect_list::<Quad>("quads") {
            Ok(x) => x,
            Err(e) => return Err(e),
        };
        assert(m.view_used() =~= seq!["unknown"@, "pos"@, "size"@, "quads"@]);
        assert(quads_view(quads@) =~= values_view(quads@));
        match m.finish() {
            Ok(_) => Ok(
                Object { unknown: #[verifier::truncate] (unknown as u16), pos, size, quads },
            ),
            Err(e) => Err(e),
        }
    }
}

/// The fields of an object.
pub open spec fn object_fields(v: ObjectV) -> FieldsV {
    seq![
        built_field("unknown"@, int_meta(v.unknown as i32)),
        built_field("pos"@, floats_meta(v.pos)),
        built_field("size"@, floats_meta(v.size)),
        built_field("quads"@, list_meta::<Quad>(v.quads)),
    ]
}

impl ToMeta for Object {
    open spec fn to_meta_spec(v: ObjectV) -> MetaV {
        object_meta(object_fields(v))
    }

    fn to_meta(&self) -> (r: Sp<Meta>) {
        let mut b = BuildObject::new();
        b.field("unknown", make_int(self.unknown as i32));
        b.field("pos", make_floats(self.pos.as_slice()));
        b.field("size", make_floats(self.size.as_slice()));
        b.field("quads", make_list(self.quads.as_slice()));
        proof {
            assert(quads_view(self.quads@) =~= values_view(self.quads@));
            assert(b.built() =~= object_fields(self@));
        }
        b.build()
    }
}

/// An object is read back from the `meta` that was made of it.
pub proof fn law_object_meta_round_trip(x: ObjectV)
    requires
        object_wf(x),
    ensures
        Object::from_meta_spec(sp_null(Object::to_meta_spec(x))) == Ok::<ObjectV, MetaErrorV>(x),
{
    let fields = object_fields(x);
    reveal_strlit("unknown");
    reveal_strlit("pos");
    reveal_strlit("size");
    reveal_strlit("quads");
    assert("unknown"@[0] == 'u');
    assert("pos"@[0] == 'p');
    assert("size"@[0] == 's');
    assert("quads"@[0] == 'q');
    assert(field_names(fields) =~= seq!["unknown"@, "pos"@, "size"@, "quads"@]);
    lemma_field_found(fields, 0);
    lemma_field_found(fields, 1);
    lemma_field_found(fields, 2);
    lemma_field_found(fields, 3);
    lemma_own_names(fields);
    lemma_u16_as_i32(x.unknown);
    law_floats_round_trip(x.pos);
    law_floats_round_trip(x.size);
    assert forall|i: int| 0 <= i < x.quads.len() implies Quad::from_meta_spec(
        sp_null(Quad::to_meta_spec(#[trigger] x.quads[i])),
    ) == Ok::<QuadV, MetaErrorV>(x.quads[i]) by {
        law_quad_meta_round_trip(x.quads[i]);
    }
    law_list_round_trip::<Quad>(x.quads);
}

// =============================================================================
// Instances

/// The word that most instances have.
pub const DEFAULT_UNKNOWN: i32 = 256;

/// The word of an instance.
pub open spec fn instance_unknown(fields: FieldsV) -> Result<i32, MetaErrorV> {
    match get_field_spec(fields, "unknown"@) {
        None => Ok(DEFAULT_UNKNOWN),
        Some(m) => meta_int(m),
    }
}

impl FromMeta for Instance {
    open spec fn from_meta_spec(m: Sp<MetaV>) -> Result<InstanceV, MetaErrorV> {
        match meta_variant(m) {
            Err(e) => Err(e),
            Ok((name, fields)) => match instance_unknown(fields.value) {
                Err(e) => Err(e),
                Ok(unknown) => match floats_field(fields, "pos"@, 3) {
                    Err(e) => Err(e),
                    Ok(pos) => match unexpected_field(fields.value, seq!["unknown"@, "pos"@]) {
                        Some(e) => Err(e),
                        None => Ok(
                            InstanceV { object: name.value, unknown: unknown as u16, pos },
                        ),
                    },
                },
            },
        }
    }

    fn from_meta(meta: &Sp<Meta>) -> (r: Result<Self, MetaError>) {
        let (name, fields) = match read_variant(meta) {
            Ok(x) => x,
            Err(e) => return Err(e),
        };
        let mut m = ParseObject::new(fields);
        let unknown: i32 = match m.get_field("unknown") {
            None => DEFAULT_UNKNOWN,
            Some(value) => match read_int(value) {
                Ok(x) => x,
                Err(e) => return Err(e),
            },
        };
        let pos = match m.expect_floats_3("pos") {
            Ok(x) => x,
            Err(e) => return Err(e),
        };
        assert(m.view_used() =~= seq!["unknown"@, "pos"@]);
        match m.finish() {
            Ok(_) => Ok(
                Instance {
                    object: name.clone(),
                    unknown: #[verifier::truncate] (unknown as u16),
                    pos,
                },
            ),
            Err(e) => Err(e),
        }
    }
}

/// The fields of an instance.
pub open spec fn instance_fields(v: InstanceV) -> FieldsV {
    if v.unknown == DEFAULT_UNKNOWN {
        seq![built_field("pos"@, floats_meta(v.pos))]
    } else {
        seq![
            built_field("unknown"@, int_meta(v.unknown as i32)),
            built_field("pos"@, floats_meta(v.pos)),
        ]
    }
}

impl ToMeta for Instance {
    open spec fn to_meta_spec(v: InstanceV) -> MetaV {
        variant_meta(v.object, instance_fields(v))
    }

    fn to_meta(&self) -> (r: Sp<Meta>) {
        let mut b = BuildObject::new();
        if self.unknown as i32 != DEFAULT_UNKNOWN {
            b.field("unknown", make_int(self.unknown as i32));
        }
        b.field("pos", make_floats(self.pos.as_slice()));
        assert(b.built() =~= instance_fields(self@));
        b.build_variant(&self.object.value)
    }
}

/// An instance is read back from the `meta` that was made of it.
pub proof fn law_instance_meta_round_trip(x: InstanceV)
    requires
        x.pos.len() == 3,
    ensures
        Instance::from_meta_spec(sp_null(Instance::to_meta_spec(x))) == Ok::<
            InstanceV,
            MetaErrorV,
        >(x),
{
    let fields = instance_fields(x);
    reveal_strlit("unknown");
    reveal_strlit("pos");
    assert("unknown"@[0] == 'u');
    assert("pos"@[0] == 'p');
    lemma_u16_as_i32(x.unknown);
    law_floats_round_trip(x.pos);
    assert forall|i: int| 0 <= i < fields.len() implies seq!["unknown"@, "pos"@].contains(
        (#[trigger] fields[i]).0.value,
    ) by {
        let names = seq!["unknown"@, "pos"@];
        assert(names[0] == "unknown"@);
        assert(names[1] == "pos"@);
    }
    lemma_none_unexpected(fields, seq!["unknown"@, "pos"@]);
    if x.unknown == DEFAULT_UNKNOWN {
        lemma_field_found(fields, 0);
        lemma_field_missing(fields, "unknown"@);
    } else {
        assert(field_names(fields) =~= seq!["unknown"@, "pos"@]);
        lemma_field_found(fields, 0);
        lemma_field_found(fields, 1);
    }
}

// =============================================================================
// Files

/// The objects that the first `n` fields describe.
pub open spec fn objects_of(fields: FieldsV, n: nat) -> Result<
    Seq<(Seq<char>, ObjectV)>,
    MetaErrorV,
>
    decreases n,
{
    if n == 0 {
        Ok(seq![])
    } else {
        match objects_of(fields, (n - 1) as nat) {
            Err(e) => Err(e),
            Ok(done) => match Object::from_meta_spec(fields[n - 1].1) {
                Err(e) => Err(e),
                Ok(object) => Ok(with_entry(done, fields[n - 1].0.value, object)),
            },
        }
    }
}

/// A field that holds the objects of a file by their names.
pub open spec fn objects_field(fields: Sp<FieldsV>, name: Seq<char>) -> Result<
    Seq<(Seq<char>, ObjectV)>,
    MetaErrorV,
> {
    match expect_field_spec(fields, name) {
        Err(e) => Err(e),
        Ok(m) => match meta_object(m) {
            Err(e) => Err(e),
            Ok(objects) => objects_of(objects.value, objects.value.len()),
        },
    }
}

proof fn lemma_objects_stop(fields: FieldsV, m: nat, n: nat)
    requires
        m <= n,
        objects_of(fields, m) is Err,
    ensures
        objects_of(fields, n) == objects_of(fields, m),
    decreases n,
{
    if m < n {
        lemma_objects_stop(fields, m, (n - 1) as nat);
    }
}

fn read_objects(fields: &Sp<Fields>) -> (r: Result<IndexMap<String, Object>, MetaError>)
    ensures
        match objects_of(fields_view(*fields).value, fields_view(*fields).value.len()) {
            Ok(v) => r matches Ok(x) && objects_view(x) == v,
            Err(e) => r matches Err(k) && from_meta_error_view(k) == e,
        },
{
    let list = &fields.value.0;
    let ghost views = field_seq_view(list@, list@.len());
    proof {
        lemma_field_seq_view(list@, list@.len());
    }
    let mut out = new_objects();
    assert(objects_view(out) =~= seq![]);
    let mut i: usize = 0;
    while i < list.len()
        invariant
            i <= list@.len(),
            views.len() == list@.len(),
            views == fields_view(*fields).value,
            forall|j: int|
                0 <= j < list@.len() ==> #[trigger] views[j] == (
                    ident_view(list@[j].0),
                    meta_view(list@[j].1),
                ),
            objects_of(views, i as nat) == Ok::<Seq<(Seq<char>, ObjectV)>, MetaErrorV>(
                objects_view(out),
            ),
        decreases list@.len() - i,
    {
        assert(views[i as int] == (ident_view(list@[i as int].0), meta_view(list@[i as int].1)));
        let object = match Object::from_meta(&list[i].1) {
            Ok(x) => x,
            Err(e) => {
                proof {
                    lemma_objects_stop(views, (i + 1) as nat, views.len());
                }
                return Err(e);
            },
        };
        let name = list[i].0.value.text.clone();
        proof {
            lemma_insert_view(object_entries(out), name@, object);
        }
        insert_object(&mut out, name, object);
        i = i + 1;
    }
    Ok(out)
}

/// The field of one object.
pub open spec fn object_entry_field(e: (Seq<char>, ObjectV)) -> (Sp<Seq<char>>, Sp<MetaV>) {
    built_field(e.0, Object::to_meta_spec(e.1))
}

/// The fields of the objects of a file.
pub open spec fn objects_fields(objects: Seq<(Seq<char>, ObjectV)>) -> FieldsV {
    objects.map_values(|e: (Seq<char>, ObjectV)| object_entry_field(e))
}

fn make_objects(objects: &IndexMap<String, Object>) -> (r: Sp<Meta>)
    ensures
        meta_view(r) == sp_null(object_meta(objects_fields(objects_view(*objects)))),
{
    let ghost views = objects_view(*objects);
    let ghost fields = objects_fields(views);
    let mut b = BuildObject::new();
    let len: usize = num_objects(objects);
    let mut i: usize = 0;
    assert(fields.take(0) =~= seq![]);
    while i < len
        invariant
            i <= len,
            len == views.len(),
            views == objects_view(*objects),
            fields == objects_fields(views),
            b.built() == fields.take(i as int),
        decreases len - i,
    {
        if let Some((name, object)) = object_at(objects, i) {
            proof {
                assert(views[i as int] == (name@, object@));
                assert(fields[i as int] == object_entry_field(views[i as int]));
                assert(fields.take(i + 1) =~= fields.take(i as int).push(fields[i as int]));
            }
            b.field(name.as_str(), object.to_meta());
        }
        i = i + 1;
    }
    assert(fields.take(i as int) =~= fields);
    b.build()
}

/// The fields that a file has in every game.
pub open spec fn common_names() -> Seq<Seq<char>> {
    seq!["unknown"@, "objects"@, "instances"@]
}

/// The file, but for its script, that a `meta` section describes.
pub open spec fn init_from_meta_spec<F: FileFormat>(format: F, fields: Sp<FieldsV>) -> Result<
    StdFileV,
    MetaErrorV,
> {
    match int_field(fields, "unknown"@) {
        Err(e) => Err(e),
        Ok(unknown) => match objects_field(fields, "objects"@) {
            Err(e) => Err(e),
            Ok(objects) => match list_field::<Instance>(fields, "instances"@) {
                Err(e) => Err(e),
                Ok(instances) => match format.extra_from_meta_spec(fields) {
                    Err(e) => Err(e),
                    Ok(extra) => match unexpected_field(
                        fields.value,
                        common_names() + format.extra_field_names(),
                    ) {
                        Some(e) => Err(e),
                        None => Ok(
                            StdFileV {
                                unknown: unknown as u32,
                                objects,
                                instances,
                                script: seq![],
                                extra,
                            },
                        ),
                    },
                },
            },
        },
    }
}

/// The fields of the `meta` section of a file.
pub open spec fn make_meta_spec<F: FileFormat>(format: F, x: StdFileV) -> FieldsV {
    seq![built_field("unknown"@, int_meta(x.unknown as i32))] + format.extra_to_meta_spec(x.extra)
        + seq![
        built_field("objects"@, object_meta(objects_fields(x.objects))),
        built_field("instances"@, list_meta::<Instance>(x.instances)),
    ]
}

impl StdFile {
    /// Read all but the script of a file from a `meta` section.
    pub fn init_from_meta<F: FileFormat>(format: &F, fields: &Sp<Fields>) -> (r: Result<
        StdFile,
        MetaError,
    >)
        ensures
            match init_from_meta_spec(*format, fields_view(*fields)) {
                Ok(v) => r matches Ok(x) && x@ == v,
                Err(e) => r matches Err(k) && from_meta_error_view(k) == e,
            },
    {
        let mut m = ParseObject::new(fields);
        let unknown: i32 = match m.expect_int("unknown") {
            Ok(x) => x,
            Err(e) => return Err(e),
        };
        let value = match m.expect_field("objects") {
            Ok(x) => x,
            Err(e) => return Err(e),
        };
        let objects = match read_object(value) {
            Ok(x) => match read_objects(x) {
                Ok(objects) => objects,
                Err(e) => return Err(e),
            },
            Err(e) => return Err(e),
        };
        let instances: Vec<Instance> = match m.expect_list::<Instance>("instances") {
            Ok(x) => x,
            Err(e) => return Err(e),
        };
        assert(m.view_used() =~= common_names());
        let extra = match format.extra_from_meta(&mut m) {
            Ok(x) => x,
            Err(e) => return Err(e),
        };
        match m.finish() {
            Ok(_) => {
                let out = StdFile {
                    unknown: #[verifier::truncate] (unknown as u32),
                    objects,
                    instances,
                    script: Vec::new(),
                    extra,
                };
                proof {
                    assert(instances_view(instances@) =~= values_view(instances@));
                    assert(out@.script =~= seq![]);
                }
                Ok(out)
            },
            Err(e) => Err(e),
        }
    }

    /// The fields of the `meta` section of a file.
    pub fn make_meta<F: FileFormat>(&self, format: &F) -> (r: Fields)
        requires
            format.accepts(self.extra@),
        ensures
            r@ == make_meta_spec(*format, self@),
    {
        let mut b = BuildObject::new();
        b.field("unknown", make_int(#[verifier::truncate] (self.unknown as i32)));
        format.extra_to_meta(&self.extra, &mut b);
        b.field("objects", make_objects(&self.objects));
        b.field("instances", make_list(self.instances.as_slice()));
        proof {
            assert(instances_view(self.instances@) =~= values_view(self.instances@));
            assert(b.built() =~= make_meta_spec(*format, self@));
        }
        b.build_fields()
    }
}

/// The names of the objects of a file.
pub open spec fn entry_names(objects: Seq<(Seq<char>, ObjectV)>) -> Seq<Seq<char>> {
    objects.map_values(|e: (Seq<char>, ObjectV)| e.0)
}

/// Whether a file can be written down in a `meta` section.
pub open spec fn meta_valid<F: FileFormat>(format: F, x: StdFileV) -> bool {
    &&& format.accepts(x.extra)
    &&& format.extra_is_text(x.extra)
    &&& entry_names(x.objects).no_duplicates()
    &&& forall|i: int| 0 <= i < x.objects.len() ==> object_wf((#[trigger] x.objects[i]).1)
    &&& forall|i: int| 0 <= i < x.instances.len() ==> (#[trigger] x.instances[i]).pos.len() == 3
}

pub proof fn lemma_new_entry(entries: Seq<(Seq<char>, ObjectV)>, key: Seq<char>)
    requires
        forall|i: int| 0 <= i < entries.len() ==> (#[trigger] entries[i]).0 != key,
    ensures
        key_index(entries, key) is None,
    decreases entries.len(),
{
    if entries.len() > 0 {
        assert forall|i: int| 0 <= i < entries.drop_last().len() implies (
        #[trigger] entries.drop_last()[i]).0 != key by {
            assert(entries.drop_last()[i] == entries[i]);
        }
        lemma_new_entry(entries.drop_last(), key);
        assert(entries.last() == entries[entries.len() - 1]);
    }
}

proof fn lemma_objects_of(objects: Seq<(Seq<char>, ObjectV)>, n: nat)
    requires
        n <= objects.len(),
        entry_names(objects).no_duplicates(),
        forall|i: int| 0 <= i < objects.len() ==> object_wf((#[trigger] objects[i]).1),
    ensures
        objects_of(objects_fields(objects), n) == Ok::<Seq<(Seq<char>, ObjectV)>, MetaErrorV>(
            objects.take(n as int),
        ),
    decreases n,
{
    if n == 0 {
        assert(objects.take(0) =~= seq![]);
    } else {
        let fields = objects_fields(objects);
        let done = objects.take(n - 1);
        let key = objects[n - 1].0;
        lemma_objects_of(objects, (n - 1) as nat);
        law_object_meta_round_trip(objects[n - 1].1);
        assert(fields[n - 1] == object_entry_field(objects[n - 1]));
        assert forall|i: int| 0 <= i < done.len() implies (#[trigger] done[i]).0 != key by {
            assert(entry_names(objects)[i] == done[i].0);
            assert(entry_names(objects)[n - 1] == key);
        }
        lemma_new_entry(done, key);
        assert(objects.take(n as int) =~= done.push(objects[n - 1]));
    }
}

/// A file, but for its script, is read back from the `meta` section that was made of it.
pub proof fn law_file_meta_round_trip<F: FileFormat>(format: F, x: StdFileV)
    requires
        meta_valid(format, x),
    ensures
        init_from_meta_spec(format, sp_null(make_meta_spec(format, x))) == Ok::<
            StdFileV,
            MetaErrorV,
        >(StdFileV { script: seq![], ..x }),
{
    let fields = make_meta_spec(format, x);
    let extra = format.extra_to_meta_spec(x.extra);
    let n = extra.len() as int;
    format.lemma_extra_names(x.extra);
    let names = seq!["unknown"@] + format.extra_field_names() + seq!["objects"@, "instances"@];
    assert(field_names(fields) =~= names) by {
        assert(field_names(extra).len() == extra.len());
        assert forall|i: int| 0 <= i < fields.len() implies field_names(fields)[i]
            == names[i] by {
            if 1 <= i < n + 1 {
                assert(field_names(extra)[i - 1] == extra[i - 1].0.value);
            }
        }
    }
    assert(fields[0] == built_field("unknown"@, int_meta(x.unknown as i32)));
    assert(fields[n + 1] == built_field("objects"@, object_meta(objects_fields(x.objects))));
    assert(fields[n + 2] == built_field("instances"@, list_meta::<Instance>(x.instances)));
    lemma_field_found(fields, 0);
    lemma_field_found(fields, n + 1);
    lemma_field_found(fields, n + 2);
    assert forall|i: int| 0 <= i < extra.len() implies get_field_spec(
        fields,
        (#[trigger] extra[i]).0.value,
    ) == Some(extra[i].1) by {
        assert(fields[i + 1] == extra[i]);
        lemma_field_found(fields, i + 1);
    }
    format.lemma_extra_meta_round_trip(x.extra, sp_null(fields));
    let unknown = x.unknown;
    assert((unknown as i32) as u32 == unknown) by (bit_vector);
    lemma_objects_of(x.objects, x.objects.len());
    assert(x.objects.take(x.objects.len() as int) =~= x.objects);
    assert forall|i: int| 0 <= i < x.instances.len() implies Instance::from_meta_spec(
        sp_null(Instance::to_meta_spec(#[trigger] x.instances[i])),
    ) == Ok::<InstanceV, MetaErrorV>(x.instances[i]) by {
        law_instance_meta_round_trip(x.instances[i]);
    }
    law_list_round_trip::<Instance>(x.instances);
    let allowed = common_names() + format.extra_field_names();
    assert forall|i: int| 0 <= i < fields.len() implies allowed.contains(
        (#[trigger] fields[i]).0.value,
    ) by {
        assert(field_names(fields)[i] == names[i]);
        if i == 0 {
            assert(allowed[0] == names[i]);
        } else if i <= n {
            assert(allowed[i + 2] == names[i]);
        } else if i == n + 1 {
            assert(allowed[1] == names[i]);
        } else {
            assert(allowed[2] == names[i]);
        }
    }
    lemma_none_unexpected(fields, allowed);
}

// =============================================================================

pub proof fn lemma_bgm_is_literal(x: BgmV)
    ensures
        literal_meta(sp_null(Std06Bgm::to_meta_spec(x))),
{
    let fields = seq![
        built_field("path"@, bytes_meta(x.path)),
        built_field("name"@, bytes_meta(x.name)),
    ];
    assert(literal_meta(sp_null(bytes_meta(x.path))));
    assert(literal_meta(sp_null(bytes_meta(x.name))));
    lemma_literal_fields(fields, fields.len());
}

proof fn lemma_quad_is_literal(x: QuadV)
    ensures
        literal_meta(sp_null(Quad::to_meta_spec(x))),
{
    let fields = quad_fields(x);
    assert(literal_meta(sp_null(int_meta(x.anm_script as i32))));
    match x.extra {
        QuadExtraV::Rect { pos, size } => {
            lemma_literal_floats(pos);
            lemma_literal_floats(size);
        },
        QuadExtraV::Strip { start, end, width } => {
            lemma_literal_floats(start);
            lemma_literal_floats(end);
            assert(literal_meta(sp_null(float_meta(width))));
        },
    }
    lemma_literal_fields(fields, fields.len());
}

proof fn lemma_object_is_literal(x: ObjectV)
    ensures
        literal_meta(sp_null(Object::to_meta_spec(x))),
{
    let fields = object_fields(x);
    assert(literal_meta(sp_null(int_meta(x.unknown as i32))));
    lemma_literal_floats(x.pos);
    lemma_literal_floats(x.size);
    assert forall|i: int| 0 <= i < x.quads.len() implies literal_meta(
        sp_null(Quad::to_meta_spec(#[trigger] x.quads[i])),
    ) by {
        lemma_quad_is_literal(x.quads[i]);
    }
    lemma_literal_list::<Quad>(x.quads);
    lemma_literal_fields(fields, fields.len());
}

proof fn lemma_instance_is_literal(x: InstanceV)
    ensures
        literal_meta(sp_null(Instance::to_meta_spec(x))),
{
    let fields = instance_fields(x);
    assert(literal_meta(sp_null(int_meta(x.unknown as i32))));
    lemma_literal_floats(x.pos);
    lemma_literal_fields(fields, fields.len());
}

/// The `meta` section of a file is made of literals.
pub proof fn lemma_file_meta_is_literal<F: FileFormat>(format: F, x: StdFileV)
    ensures
        literal_fields(make_meta_spec(format, x), make_meta_spec(format, x).len()),
{
    let fields = make_meta_spec(format, x);
    let extra = format.extra_to_meta_spec(x.extra);
    let objects = objects_fields(x.objects);
    format.lemma_extra_is_literal(x.extra);
    assert(literal_meta(sp_null(int_meta(x.unknown as i32))));
    assert forall|i: int| 0 <= i < objects.len() implies literal_meta(
        (#[trigger] objects[i]).1,
    ) by {
        assert(objects[i] == object_entry_field(x.objects[i]));
        lemma_object_is_literal(x.objects[i].1);
    }
    lemma_literal_fields(objects, objects.len());
    assert(literal_meta(sp_null(object_meta(objects))));
    assert forall|i: int| 0 <= i < x.instances.len() implies literal_meta(
        sp_null(Instance::to_meta_spec(#[trigger] x.instances[i])),
    ) by {
        lemma_instance_is_literal(x.instances[i]);
    }
    lemma_literal_list::<Instance>(x.instances);
    assert forall|i: int| 0 <= i < fields.len() implies literal_meta((#[trigger] fields[i]).1) by {
        if 1 <= i < 1 + extra.len() {
            assert(fields[i] == extra[i - 1]);
            lemma_literal_field(extra, extra.len(), i - 1);
        }
    }
    lemma_literal_fields(fields, fields.len());
}

proof fn lemma_literal_field(fields: FieldsV, n: nat, i: int)
    requires
        0 <= i < n <= fields.len(),
        literal_fields(fields, n),
    ensures
        literal_meta(fields[i].1),
    decreases n,
{
    if i < n - 1 {
        lemma_literal_field(fields, (n - 1) as nat, i);
    }
}

} // verus!
