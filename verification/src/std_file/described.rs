//! What a `meta` section says of a file, field by field.

use crate::float32::F32;
use crate::meta::{
    built_field, bytes_field, expect_field_spec, field_index, float_field, floats_field, floats_of,
    int_field, list_field, list_field_of, list_of, object_meta, unexpected_field, FieldsV, FromMeta,
    MetaErrorV, ToMeta,
};
use crate::pos::{sp_null, Sp};
use crate::script::{ExprV, MetaV};
use crate::std_file::binary::{object_wf, quad_wf};
use crate::std_file::format::{FileFormat06, FileFormat10};
use crate::std_file::meta::{
    entry_names, init_from_meta_spec, law_bgm_meta_round_trip, law_file_meta_round_trip,
    law_instance_meta_round_trip, law_object_meta_round_trip, law_quad_meta_round_trip,
    lemma_new_entry, make_meta_spec, meta_valid, objects_field, objects_fields, objects_of,
};
use crate::std_file::{
    with_entry, BgmV, ExtraV, Instance, InstanceV, Object, ObjectV, Quad, QuadExtraV, QuadV,
    Std06Bgm, StdFileV,
};
use vstd::prelude::*;
use vstd::utf8::{encode_utf8, valid_utf8};

verus! {

/// Whether a value is a number.
pub open spec fn says_float(m: Sp<MetaV>, x: F32) -> bool {
    m.value matches MetaV::Scalar(e) && e.value == (ExprV::LitFloat { value: x })
}

/// Whether a field is the first one of its name.
pub open spec fn is_first(fields: FieldsV, name: Seq<char>, i: int) -> bool {
    &&& 0 <= i < fields.len()
    &&& fields[i].0.value == name
    &&& forall|j: int| 0 <= j < i ==> (#[trigger] fields[j]).0.value != name
}

/// Whether the field of a name holds an integer.
pub open spec fn has_int(fields: FieldsV, name: Seq<char>, x: i32) -> bool {
    exists|i: int| #[trigger]
        is_first(fields, name, i) && (fields[i].1.value matches MetaV::Scalar(e) && (e.value matches
            ExprV::LitInt { value, .. } && value == x))
}

/// Whether the field of a name holds a number.
pub open spec fn has_float(fields: FieldsV, name: Seq<char>, x: F32) -> bool {
    exists|i: int| #[trigger] is_first(fields, name, i) && says_float(fields[i].1, x)
}

/// Whether a list has these numbers, in this order.
pub open spec fn says_floats(items: Seq<Sp<MetaV>>, xs: Seq<F32>) -> bool {
    &&& items.len() == xs.len()
    &&& forall|i: int| 0 <= i < xs.len() ==> says_float(#[trigger] items[i], xs[i])
}

/// Whether the field of a name holds a vector of some components.
pub open spec fn has_floats(fields: FieldsV, name: Seq<char>, xs: Seq<F32>, len: nat) -> bool {
    &&& xs.len() == len
    &&& exists|i: int| #[trigger]
        is_first(fields, name, i) && (fields[i].1.value matches MetaV::Array(items) && says_floats(
            items,
            xs,
        ))
}

/// Whether the field of a name holds a text.
pub open spec fn has_text(fields: FieldsV, name: Seq<char>, bytes: Seq<u8>) -> bool {
    exists|i: int| #[trigger]
        is_first(fields, name, i) && (fields[i].1.value matches MetaV::Scalar(e) && (e.value matches
            ExprV::LitString { string } && encode_utf8(string) == bytes))
}

/// Whether the field of a name holds a list.
pub open spec fn has_list(fields: FieldsV, name: Seq<char>, items: Seq<Sp<MetaV>>) -> bool {
    exists|i: int| #[trigger]
        is_first(fields, name, i) && fields[i].1.value == MetaV::Array(items)
}

/// Whether no field has another name than these.
pub open spec fn only(fields: FieldsV, names: Seq<Seq<char>>) -> bool {
    forall|i: int| 0 <= i < fields.len() ==> names.contains((#[trigger] fields[i]).0.value)
}

/// Whether a value says what music there is.
pub open spec fn says_bgm(m: Sp<MetaV>, x: BgmV) -> bool {
    m.value matches MetaV::Object(f) && {
        &&& has_text(f.value, "path"@, x.path)
        &&& has_text(f.value, "name"@, x.name)
        &&& only(f.value, seq!["path"@, "name"@])
    }
}

/// Whether a value says what a quad is.
pub open spec fn says_quad(m: Sp<MetaV>, x: QuadV) -> bool {
    m.value matches MetaV::Variant { name, fields: f } && {
        &&& exists|n: i32| #[trigger] has_int(f.value, "anm_script"@, n) && n as u16 == x.anm_script
        &&& match x.extra {
            QuadExtraV::Rect { pos, size } => {
                &&& name.value == "rect"@
                &&& has_floats(f.value, "pos"@, pos, 3)
                &&& has_floats(f.value, "size"@, size, 2)
                &&& only(f.value, seq!["anm_script"@, "pos"@, "size"@])
            },
            QuadExtraV::Strip { start, end, width } => {
                &&& name.value == "strip"@
                &&& has_floats(f.value, "start"@, start, 3)
                &&& has_floats(f.value, "end"@, end, 3)
                &&& has_float(f.value, "width"@, width)
                &&& only(f.value, seq!["anm_script"@, "start"@, "end"@, "width"@])
            },
        }
    }
}

/// Whether a list says what some quads are, in this order.
pub open spec fn says_quads(items: Seq<Sp<MetaV>>, xs: Seq<QuadV>) -> bool {
    &&& items.len() == xs.len()
    &&& forall|i: int| 0 <= i < xs.len() ==> says_quad(#[trigger] items[i], xs[i])
}

/// Whether a value says what an object is.
pub open spec fn says_object(m: Sp<MetaV>, x: ObjectV) -> bool {
    m.value matches MetaV::Object(f) && {
        &&& exists|n: i32| #[trigger] has_int(f.value, "unknown"@, n) && n as u16 == x.unknown
        &&& has_floats(f.value, "pos"@, x.pos, 3)
        &&& has_floats(f.value, "size"@, x.size, 3)
        &&& exists|items: Seq<Sp<MetaV>>| #[trigger]
            has_list(f.value, "quads"@, items) && says_quads(items, x.quads)
        &&& only(f.value, seq!["unknown"@, "pos"@, "size"@, "quads"@])
    }
}

/// Whether a value says where an object stands.  The name of the variant is that of the object, and
/// the word is 256 if it is left out.
pub open spec fn says_instance(m: Sp<MetaV>, x: InstanceV) -> bool {
    m.value matches MetaV::Variant { name, fields: f } && {
        &&& name.value == x.object
        &&& if exists|i: int| is_first(f.value, "unknown"@, i) {
            exists|n: i32| #[trigger] has_int(f.value, "unknown"@, n) && n as u16 == x.unknown
        } else {
            x.unknown == 256
        }
        &&& has_floats(f.value, "pos"@, x.pos, 3)
        &&& only(f.value, seq!["unknown"@, "pos"@])
    }
}

/// Whether a list says where some objects stand, in this order.
pub open spec fn says_instances(items: Seq<Sp<MetaV>>, xs: Seq<InstanceV>) -> bool {
    &&& items.len() == xs.len()
    &&& forall|i: int| 0 <= i < xs.len() ==> says_instance(#[trigger] items[i], xs[i])
}

/// Whether fields say what the objects of a file are, each by its name and in this order.
pub open spec fn says_objects(fields: FieldsV, xs: Seq<(Seq<char>, ObjectV)>) -> bool {
    &&& fields.len() == xs.len()
    &&& forall|i: int|
        0 <= i < xs.len() ==> (#[trigger] fields[i]).0.value == xs[i].0 && says_object(
            fields[i].1,
            xs[i].1,
        )
}

/// Whether the field of a name holds the objects of a file.
pub open spec fn has_objects(
    fields: FieldsV,
    name: Seq<char>,
    xs: Seq<(Seq<char>, ObjectV)>,
) -> bool {
    exists|i: int| #[trigger]
        is_first(fields, name, i) && (fields[i].1.value matches MetaV::Object(f) && says_objects(
            f.value,
            xs,
        ))
}

/// Whether the names of the objects of a file are distinct, if there are any.
pub open spec fn objects_are_distinct(fields: FieldsV, name: Seq<char>) -> bool {
    forall|i: int| #[trigger]
        is_first(fields, name, i) ==> (fields[i].1.value matches MetaV::Object(f)
            ==> distinct_names(f.value))
}

pub open spec fn distinct_names(fields: FieldsV) -> bool {
    forall|i: int, j: int|
        0 <= i < j < fields.len() ==> (#[trigger] fields[i]).0.value != (
        #[trigger] fields[j]).0.value
}

/// Whether a `meta` section says what a file is, but for what differs between games.
pub open spec fn says_common(fields: FieldsV, x: StdFileV) -> bool {
    &&& exists|n: i32| #[trigger] has_int(fields, "unknown"@, n) && n as u32 == x.unknown
    &&& has_objects(fields, "objects"@, x.objects)
    &&& exists|items: Seq<Sp<MetaV>>| #[trigger]
        has_list(fields, "instances"@, items) && says_instances(items, x.instances)
    &&& x.script.len() == 0
}

/// Whether a list says what the four pieces of music of a stage are.
pub open spec fn says_bgms(items: Seq<Sp<MetaV>>, xs: Seq<BgmV>) -> bool {
    &&& items.len() == 4
    &&& xs.len() == 4
    &&& forall|i: int| 0 <= i < 4 ==> says_bgm(#[trigger] items[i], xs[i])
}

/// Whether a `meta` section says what a file of the early games is.
pub open spec fn says_file_06(fields: FieldsV, x: StdFileV) -> bool {
    &&& says_common(fields, x)
    &&& x.extra is Th06
    &&& has_text(fields, "stage_name"@, x.extra->stage_name)
    &&& exists|items: Seq<Sp<MetaV>>| #[trigger]
        has_list(fields, "bgm"@, items) && says_bgms(items, x.extra->bgm)
    &&& only(fields, seq!["unknown"@, "objects"@, "instances"@, "stage_name"@, "bgm"@])
}

/// Whether a `meta` section says what a file of the later games is.
pub open spec fn says_file_10(fields: FieldsV, x: StdFileV) -> bool {
    &&& says_common(fields, x)
    &&& x.extra is Th10
    &&& has_text(fields, "anm_path"@, x.extra->anm_path)
    &&& only(fields, seq!["unknown"@, "objects"@, "instances"@, "anm_path"@])
}

// =============================================================================

proof fn lemma_field_index(fields: FieldsV, name: Seq<char>)
    ensures
        forall|i: int| #[trigger]
            is_first(fields, name, i) ==> field_index(fields, name) == Some(i),
        field_index(fields, name) matches Some(i) ==> is_first(fields, name, i),
    decreases fields.len(),
{
    if fields.len() > 0 {
        let head = fields.drop_last();
        lemma_field_index(head, name);
        assert forall|i: int| #[trigger] is_first(fields, name, i) implies field_index(
            fields,
            name,
        ) == Some(i) by {
            assert forall|j: int| 0 <= j < head.len() && j < i implies (
            #[trigger] head[j]).0.value != name by {
                assert(fields[j].0.value != name);
            }
            if i < head.len() {
                assert(head[i] == fields[i]);
                assert(is_first(head, name, i));
            } else if let Some(k) = field_index(head, name) {
                assert(is_first(head, name, k));
                assert(fields[k] == head[k]);
            }
        }
        if let Some(i) = field_index(fields, name) {
            if let Some(k) = field_index(head, name) {
                assert(head[k] == fields[k]);
                assert forall|j: int| 0 <= j < k implies (#[trigger] fields[j]).0.value
                    != name by {
                    assert(head[j] == fields[j]);
                }
            } else {
                assert forall|j: int| 0 <= j < i implies (#[trigger] fields[j]).0.value
                    != name by {
                    if fields[j].0.value == name {
                        lemma_some_first(head, name, j);
                    }
                }
            }
        }
    }
}

/// If a field has a name, one is the first.
proof fn lemma_some_first(fields: FieldsV, name: Seq<char>, j: int)
    requires
        0 <= j < fields.len(),
        fields[j].0.value == name,
    ensures
        exists|i: int| is_first(fields, name, i),
    decreases j,
{
    if exists|k: int| 0 <= k < j && (#[trigger] fields[k]).0.value == name {
        let k = choose|k: int| 0 <= k < j && (#[trigger] fields[k]).0.value == name;
        lemma_some_first(fields, name, k);
    } else {
        assert(is_first(fields, name, j));
    }
}

proof fn lemma_int(fields: Sp<FieldsV>, name: Seq<char>, x: i32)
    ensures
        int_field(fields, name) == Ok::<i32, MetaErrorV>(x) <==> has_int(fields.value, name, x),
{
    lemma_field_index(fields.value, name);
}

proof fn lemma_float(fields: Sp<FieldsV>, name: Seq<char>, x: F32)
    ensures
        float_field(fields, name) == Ok::<F32, MetaErrorV>(x) <==> has_float(fields.value, name, x),
{
    lemma_field_index(fields.value, name);
}

proof fn lemma_text(fields: Sp<FieldsV>, name: Seq<char>, x: Seq<u8>)
    ensures
        bytes_field(fields, name) == Ok::<Seq<u8>, MetaErrorV>(x) <==> has_text(
            fields.value,
            name,
            x,
        ),
{
    lemma_field_index(fields.value, name);
}

proof fn lemma_floats_of(items: Seq<Sp<MetaV>>, n: nat, xs: Seq<F32>)
    requires
        n <= items.len(),
    ensures
        floats_of(items, n) == Ok::<Seq<F32>, MetaErrorV>(xs) <==> says_floats(
            items.take(n as int),
            xs,
        ),
    decreases n,
{
    let head = items.take(n as int);
    if n == 0 {
        if says_floats(head, xs) {
            assert(xs =~= seq![]);
        }
    } else {
        let m = (n - 1) as nat;
        let before = items.take(m as int);
        if says_floats(head, xs) {
            let ys = xs.drop_last();
            assert forall|i: int| 0 <= i < ys.len() implies says_float(
                #[trigger] before[i],
                ys[i],
            ) by {
                assert(head[i] == before[i]);
            }
            lemma_floats_of(items, m, ys);
            assert(says_float(head[n - 1], xs[n - 1]));
            assert(ys.push(xs[n - 1]) =~= xs);
        }
        if floats_of(items, n) == Ok::<Seq<F32>, MetaErrorV>(xs) {
            let ys = floats_of(items, m)->Ok_0;
            lemma_floats_of(items, m, ys);
            assert forall|i: int| 0 <= i < xs.len() implies says_float(
                #[trigger] head[i],
                xs[i],
            ) by {
                if i < m {
                    assert(head[i] == before[i]);
                }
            }
        }
    }
}

proof fn lemma_floats(fields: Sp<FieldsV>, name: Seq<char>, len: nat, xs: Seq<F32>)
    ensures
        floats_field(fields, name, len) == Ok::<Seq<F32>, MetaErrorV>(xs) <==> has_floats(
            fields.value,
            name,
            xs,
            len,
        ),
{
    lemma_field_index(fields.value, name);
    if let Ok(m) = expect_field_spec(fields, name) {
        if let MetaV::Array(items) = m.value {
            assert(items.take(items.len() as int) =~= items);
            lemma_floats_of(items, items.len(), xs);
        }
    }
}

proof fn lemma_list_of<T: FromMeta>(items: Seq<Sp<MetaV>>, n: nat, xs: Seq<T::V>)
    requires
        n <= items.len(),
    ensures
        list_of::<T>(items, n) == Ok::<Seq<T::V>, MetaErrorV>(xs) <==> xs.len() == n && forall|i: int|
            0 <= i < n ==> T::from_meta_spec(#[trigger] items[i]) == Ok::<T::V, MetaErrorV>(xs[i]),
    decreases n,
{
    if n == 0 {
        if xs.len() == 0 {
            assert(xs =~= seq![]);
        }
    } else {
        let m = (n - 1) as nat;
        if xs.len() == n && forall|i: int|
            0 <= i < n ==> T::from_meta_spec(#[trigger] items[i]) == Ok::<T::V, MetaErrorV>(xs[i]) {
            let ys = xs.drop_last();
            lemma_list_of::<T>(items, m, ys);
            assert(T::from_meta_spec(items[n - 1]) == Ok::<T::V, MetaErrorV>(xs[n - 1]));
            assert(ys.push(xs[n - 1]) =~= xs);
        }
        if list_of::<T>(items, n) == Ok::<Seq<T::V>, MetaErrorV>(xs) {
            let ys = list_of::<T>(items, m)->Ok_0;
            lemma_list_of::<T>(items, m, ys);
            assert forall|i: int| 0 <= i < n implies T::from_meta_spec(#[trigger] items[i]) == Ok::<
                T::V,
                MetaErrorV,
            >(xs[i]) by {
                if i < m {
                    assert(ys[i] == xs[i]);
                }
            }
        }
    }
}

proof fn lemma_only(fields: FieldsV, names: Seq<Seq<char>>)
    ensures
        unexpected_field(fields, names) is None <==> only(fields, names),
    decreases fields.len(),
{
    if fields.len() > 0 {
        let head = fields.drop_last();
        lemma_only(head, names);
        if only(fields, names) {
            assert forall|i: int| 0 <= i < head.len() implies names.contains(
                (#[trigger] head[i]).0.value,
            ) by {
                assert(fields[i] == head[i]);
            }
            assert(names.contains(fields[fields.len() - 1].0.value));
        }
        if only(head, names) && names.contains(fields.last().0.value) {
            assert forall|i: int| 0 <= i < fields.len() implies names.contains(
                (#[trigger] fields[i]).0.value,
            ) by {
                if i < head.len() {
                    assert(fields[i] == head[i]);
                }
            }
        }
    }
}

proof fn lemma_list_found(fields: Sp<FieldsV>, name: Seq<char>)
    ensures
        forall|items: Seq<Sp<MetaV>>| #[trigger]
            has_list(fields.value, name, items) <==> (expect_field_spec(fields, name) matches Ok(m)
                && m.value == MetaV::Array(items)),
{
    lemma_field_index(fields.value, name);
}

// -----------------------------------------------------------------------------

/// Music is read from a value just if the value says that it is this music.
pub proof fn law_bgm_is_described(m: Sp<MetaV>, x: BgmV)
    ensures
        Std06Bgm::from_meta_spec(m) == Ok::<BgmV, MetaErrorV>(x) <==> says_bgm(m, x),
{
    if let MetaV::Object(f) = m.value {
        lemma_text(f, "path"@, x.path);
        lemma_text(f, "name"@, x.name);
        lemma_only(f.value, seq!["path"@, "name"@]);
    }
}

/// A quad is read from a value just if the value says that it is this quad.
pub proof fn law_quad_is_described(m: Sp<MetaV>, x: QuadV)
    ensures
        Quad::from_meta_spec(m) == Ok::<QuadV, MetaErrorV>(x) <==> says_quad(m, x),
{
    reveal_strlit("rect");
    reveal_strlit("strip");
    assert("rect"@[0] == 'r');
    assert("strip"@[0] == 's');
    if let MetaV::Variant { name, fields: f } = m.value {
        lemma_word(f, "anm_script"@, x.anm_script);
        match x.extra {
            QuadExtraV::Rect { pos, size } => {
                lemma_floats(f, "pos"@, 3, pos);
                lemma_floats(f, "size"@, 2, size);
                lemma_only(f.value, seq!["anm_script"@, "pos"@, "size"@]);
            },
            QuadExtraV::Strip { start, end, width } => {
                lemma_floats(f, "start"@, 3, start);
                lemma_floats(f, "end"@, 3, end);
                lemma_float(f, "width"@, width);
                lemma_only(f.value, seq!["anm_script"@, "start"@, "end"@, "width"@]);
            },
        }
    }
}

proof fn lemma_word(fields: Sp<FieldsV>, name: Seq<char>, x: u16)
    ensures
        (int_field(fields, name) matches Ok(k) && k as u16 == x) <==> exists|n: i32| #[trigger]
            has_int(fields.value, name, n) && n as u16 == x,
{
    if let Ok(n) = int_field(fields, name) {
        lemma_int(fields, name, n);
    }
    if exists|n: i32| #[trigger] has_int(fields.value, name, n) && n as u16 == x {
        let n = choose|n: i32| #[trigger] has_int(fields.value, name, n) && n as u16 == x;
        lemma_int(fields, name, n);
    }
}

/// An object is read from a value just if the value says that it is this object.
pub proof fn law_object_is_described(m: Sp<MetaV>, x: ObjectV)
    ensures
        Object::from_meta_spec(m) == Ok::<ObjectV, MetaErrorV>(x) <==> says_object(m, x),
{
    if let MetaV::Object(f) = m.value {
        lemma_word(f, "unknown"@, x.unknown);
        lemma_floats(f, "pos"@, 3, x.pos);
        lemma_floats(f, "size"@, 3, x.size);
        lemma_only(f.value, seq!["unknown"@, "pos"@, "size"@, "quads"@]);
        assert(list_field::<Quad>(f, "quads"@) == Ok::<Seq<QuadV>, MetaErrorV>(x.quads) <==> exists|
            items: Seq<Sp<MetaV>>,
        | #[trigger] has_list(f.value, "quads"@, items) && says_quads(items, x.quads)) by {
            lemma_list_found(f, "quads"@);
            if let Ok(m) = expect_field_spec(f, "quads"@) {
                if let MetaV::Array(items) = m.value {
                    assert(has_list(f.value, "quads"@, items));
                    lemma_list_of::<Quad>(items, items.len(), x.quads);
                    assert forall|i: int| 0 <= i < items.len() && i < x.quads.len() implies (
                    Quad::from_meta_spec(#[trigger] items[i]) == Ok::<QuadV, MetaErrorV>(
                        x.quads[i],
                    ) <==> says_quad(items[i], x.quads[i])) by {
                        law_quad_is_described(items[i], x.quads[i]);
                    }
                }
            }
        }
    }
}

/// An instance is read from a value just if the value says that it is this instance.
pub proof fn law_instance_is_described(m: Sp<MetaV>, x: InstanceV)
    ensures
        Instance::from_meta_spec(m) == Ok::<InstanceV, MetaErrorV>(x) <==> says_instance(m, x),
{
    if let MetaV::Variant { name, fields: f } = m.value {
        lemma_field_index(f.value, "unknown"@);
        lemma_word(f, "unknown"@, x.unknown);
        lemma_floats(f, "pos"@, 3, x.pos);
        lemma_only(f.value, seq!["unknown"@, "pos"@]);
        if let Some(i) = field_index(f.value, "unknown"@) {
            assert(is_first(f.value, "unknown"@, i));
        }
        assert(256i32 as u16 == 256u16);
    }
}

proof fn lemma_objects_of(fields: FieldsV, n: nat, xs: Seq<(Seq<char>, ObjectV)>)
    requires
        n <= fields.len(),
        distinct_names(fields),
    ensures
        objects_of(fields, n) == Ok::<Seq<(Seq<char>, ObjectV)>, MetaErrorV>(xs) <==> says_objects(
            fields.take(n as int),
            xs,
        ),
    decreases n,
{
    let head = fields.take(n as int);
    if n == 0 {
        if says_objects(head, xs) {
            assert(xs =~= seq![]);
        }
    } else {
        let m = (n - 1) as nat;
        let before = fields.take(m as int);
        let (key, value) = (fields[n - 1].0.value, fields[n - 1].1);
        if says_objects(head, xs) {
            let ys = xs.drop_last();
            assert forall|i: int| 0 <= i < ys.len() implies (#[trigger] before[i]).0.value
                == ys[i].0 && says_object(before[i].1, ys[i].1) by {
                assert(head[i] == before[i]);
            }
            lemma_objects_of(fields, m, ys);
            assert(head[n - 1] == fields[n - 1]);
            law_object_is_described(value, xs[n - 1].1);
            lemma_appended(fields, m, ys, xs[n - 1].1);
            assert(ys.push((key, xs[n - 1].1)) =~= xs);
        }
        if objects_of(fields, n) == Ok::<Seq<(Seq<char>, ObjectV)>, MetaErrorV>(xs) {
            let ys = objects_of(fields, m)->Ok_0;
            lemma_objects_of(fields, m, ys);
            let object = Object::from_meta_spec(value)->Ok_0;
            law_object_is_described(value, object);
            lemma_appended(fields, m, ys, object);
            assert forall|i: int| 0 <= i < xs.len() implies (#[trigger] head[i]).0.value
                == xs[i].0 && says_object(head[i].1, xs[i].1) by {
                if i < m {
                    assert(head[i] == before[i]);
                }
            }
        }
    }
}

proof fn lemma_appended(
    fields: FieldsV,
    m: nat,
    ys: Seq<(Seq<char>, ObjectV)>,
    object: ObjectV,
)
    requires
        m < fields.len(),
        distinct_names(fields),
        says_objects(fields.take(m as int), ys),
    ensures
        with_entry(ys, fields[m as int].0.value, object) == ys.push(
            (fields[m as int].0.value, object),
        ),
{
    let before = fields.take(m as int);
    assert forall|i: int| 0 <= i < ys.len() implies (#[trigger] ys[i]).0
        != fields[m as int].0.value by {
        assert(before[i] == fields[i]);
    }
    lemma_new_entry(ys, fields[m as int].0.value);
}

proof fn lemma_common(fields: Sp<FieldsV>, x: StdFileV)
    requires
        objects_are_distinct(fields.value, "objects"@),
    ensures
        says_common(fields.value, x) <==> {
            &&& int_field(fields, "unknown"@) matches Ok(k) && k as u32 == x.unknown
            &&& objects_field(fields, "objects"@) == Ok::<
                Seq<(Seq<char>, ObjectV)>,
                MetaErrorV,
            >(x.objects)
            &&& list_field::<Instance>(fields, "instances"@) == Ok::<Seq<InstanceV>, MetaErrorV>(
                x.instances,
            )
            &&& x.script.len() == 0
        },
{
    let said = int_field(fields, "unknown"@);
    assert((said is Ok && said->Ok_0 as u32 == x.unknown) <==> exists|n: i32| #[trigger]
        has_int(fields.value, "unknown"@, n) && n as u32 == x.unknown) by {
        if let Ok(n) = int_field(fields, "unknown"@) {
            lemma_int(fields, "unknown"@, n);
        }
        if exists|n: i32| #[trigger]
            has_int(fields.value, "unknown"@, n) && n as u32 == x.unknown {
            let n = choose|n: i32| #[trigger]
                has_int(fields.value, "unknown"@, n) && n as u32 == x.unknown;
            lemma_int(fields, "unknown"@, n);
        }
    }
    assert(objects_field(fields, "objects"@) == Ok::<Seq<(Seq<char>, ObjectV)>, MetaErrorV>(
        x.objects,
    ) <==> has_objects(fields.value, "objects"@, x.objects)) by {
        lemma_field_index(fields.value, "objects"@);
        if let Some(i) = field_index(fields.value, "objects"@) {
            assert(is_first(fields.value, "objects"@, i));
            if let MetaV::Object(f) = fields.value[i].1.value {
                assert(f.value.take(f.value.len() as int) =~= f.value);
                lemma_objects_of(f.value, f.value.len(), x.objects);
            }
        }
    }
    assert(list_field::<Instance>(fields, "instances"@) == Ok::<Seq<InstanceV>, MetaErrorV>(
        x.instances,
    ) <==> exists|items: Seq<Sp<MetaV>>| #[trigger]
        has_list(fields.value, "instances"@, items) && says_instances(items, x.instances)) by {
        lemma_list_found(fields, "instances"@);
        if let Ok(m) = expect_field_spec(fields, "instances"@) {
            if let MetaV::Array(items) = m.value {
                assert(has_list(fields.value, "instances"@, items));
                lemma_list_of::<Instance>(items, items.len(), x.instances);
                assert forall|i: int| 0 <= i < items.len() && i < x.instances.len() implies (
                Instance::from_meta_spec(#[trigger] items[i]) == Ok::<InstanceV, MetaErrorV>(
                    x.instances[i],
                ) <==> says_instance(items[i], x.instances[i])) by {
                    law_instance_is_described(items[i], x.instances[i]);
                }
            }
        }
    }
}

/// A file of the early games is read from a `meta` section just if the section says that it is this
/// file.
pub proof fn law_file_is_described_06(format: FileFormat06, fields: Sp<FieldsV>, x: StdFileV)
    requires
        objects_are_distinct(fields.value, "objects"@),
    ensures
        init_from_meta_spec(format, fields) == Ok::<StdFileV, MetaErrorV>(x) <==> says_file_06(
            fields.value,
            x,
        ),
{
    let names = seq!["unknown"@, "objects"@, "instances"@, "stage_name"@, "bgm"@];
    assert(seq!["unknown"@, "objects"@, "instances"@] + seq!["stage_name"@, "bgm"@] =~= names);
    lemma_common(fields, x);
    lemma_only(fields.value, names);
    if x.script.len() == 0 {
        assert(x.script =~= seq![]);
    }
    if let ExtraV::Th06 { stage_name, bgm } = x.extra {
        lemma_text(fields, "stage_name"@, stage_name);
        assert(list_field_of::<Std06Bgm>(fields, "bgm"@, 4) == Ok::<Seq<BgmV>, MetaErrorV>(bgm)
            <==> exists|items: Seq<Sp<MetaV>>| #[trigger]
            has_list(fields.value, "bgm"@, items) && says_bgms(items, bgm)) by {
            lemma_list_found(fields, "bgm"@);
            if let Ok(m) = expect_field_spec(fields, "bgm"@) {
                if let MetaV::Array(items) = m.value {
                    assert(has_list(fields.value, "bgm"@, items));
                    if items.len() == 4 {
                        lemma_list_of::<Std06Bgm>(items, 4, bgm);
                    }
                    assert forall|i: int| 0 <= i < items.len() && i < bgm.len() implies (
                    Std06Bgm::from_meta_spec(#[trigger] items[i]) == Ok::<BgmV, MetaErrorV>(bgm[i])
                        <==> says_bgm(items[i], bgm[i])) by {
                        law_bgm_is_described(items[i], bgm[i]);
                    }
                }
            }
        }
    }
}

/// A file of the later games is read from a `meta` section just if the section says that it is this
/// file.
pub proof fn law_file_is_described_10(format: FileFormat10, fields: Sp<FieldsV>, x: StdFileV)
    requires
        objects_are_distinct(fields.value, "objects"@),
    ensures
        init_from_meta_spec(format, fields) == Ok::<StdFileV, MetaErrorV>(x) <==> says_file_10(
            fields.value,
            x,
        ),
{
    let names = seq!["unknown"@, "objects"@, "instances"@, "anm_path"@];
    assert(seq!["unknown"@, "objects"@, "instances"@] + seq!["anm_path"@] =~= names);
    lemma_common(fields, x);
    lemma_only(fields.value, names);
    if x.script.len() == 0 {
        assert(x.script =~= seq![]);
    }
    if let ExtraV::Th10 { anm_path } = x.extra {
        lemma_text(fields, "anm_path"@, anm_path);
    }
}

/// What stands for music, a quad, an object or an instance in a `meta` section says what it is.
pub proof fn law_built_values_describe(bgm: BgmV, quad: QuadV, object: ObjectV, instance: InstanceV)
    requires
        valid_utf8(bgm.path),
        valid_utf8(bgm.name),
        quad_wf(quad),
        object_wf(object),
        instance.pos.len() == 3,
    ensures
        says_bgm(sp_null(Std06Bgm::to_meta_spec(bgm)), bgm),
        says_quad(sp_null(Quad::to_meta_spec(quad)), quad),
        says_object(sp_null(Object::to_meta_spec(object)), object),
        says_instance(sp_null(Instance::to_meta_spec(instance)), instance),
{
    law_bgm_meta_round_trip(bgm);
    law_bgm_is_described(sp_null(Std06Bgm::to_meta_spec(bgm)), bgm);
    law_quad_meta_round_trip(quad);
    law_quad_is_described(sp_null(Quad::to_meta_spec(quad)), quad);
    law_object_meta_round_trip(object);
    law_object_is_described(sp_null(Object::to_meta_spec(object)), object);
    law_instance_meta_round_trip(instance);
    law_instance_is_described(sp_null(Instance::to_meta_spec(instance)), instance);
}

proof fn lemma_distinct_objects(fields: FieldsV, k: int, objects: Seq<(Seq<char>, ObjectV)>)
    requires
        0 <= k < fields.len(),
        fields[k] == built_field("objects"@, object_meta(objects_fields(objects))),
        forall|i: int|
            0 <= i < fields.len() && i != k ==> (#[trigger] fields[i]).0.value != "objects"@,
        entry_names(objects).no_duplicates(),
    ensures
        objects_are_distinct(fields, "objects"@),
{
    let inner = objects_fields(objects);
    assert forall|i: int, j: int| 0 <= i < j < inner.len() implies (#[trigger] inner[i]).0.value
        != (#[trigger] inner[j]).0.value by {
        assert(entry_names(objects)[i] == objects[i].0);
        assert(entry_names(objects)[j] == objects[j].0);
        assert(inner[i].0.value == objects[i].0);
        assert(inner[j].0.value == objects[j].0);
    }
}

/// The `meta` section of a file of the early games says what the file is.
pub proof fn law_built_file_describes_06(format: FileFormat06, x: StdFileV)
    requires
        meta_valid(format, x),
    ensures
        says_file_06(make_meta_spec(format, x), (StdFileV { script: seq![], ..x })),
{
    let fields = make_meta_spec(format, x);
    reveal_strlit("unknown");
    reveal_strlit("stage_name");
    reveal_strlit("bgm");
    reveal_strlit("objects");
    reveal_strlit("instances");
    assert("unknown"@[0] == 'u');
    assert("stage_name"@[0] == 's');
    assert("bgm"@[0] == 'b');
    assert("objects"@[0] == 'o');
    assert("instances"@[0] == 'i');
    lemma_distinct_objects(fields, 3, x.objects);
    law_file_meta_round_trip(format, x);
    law_file_is_described_06(format, sp_null(fields), StdFileV { script: seq![], ..x });
}

/// The `meta` section of a file of the later games says what the file is.
pub proof fn law_built_file_describes_10(format: FileFormat10, x: StdFileV)
    requires
        meta_valid(format, x),
    ensures
        says_file_10(make_meta_spec(format, x), (StdFileV { script: seq![], ..x })),
{
    let fields = make_meta_spec(format, x);
    reveal_strlit("unknown");
    reveal_strlit("anm_path");
    reveal_strlit("objects");
    reveal_strlit("instances");
    assert("unknown"@[0] == 'u');
    assert("anm_path"@[0] == 'a');
    assert("objects"@[0] == 'o');
    assert("instances"@[0] == 'i');
    lemma_distinct_objects(fields, 2, x.objects);
    law_file_meta_round_trip(format, x);
    law_file_is_described_10(format, sp_null(fields), StdFileV { script: seq![], ..x });
}

} // verus!
