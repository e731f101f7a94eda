//! The shape of each component in a document.
//!
//! A transform is written as
//! `{ "position": [x, y, z], "rotation": [x, y, z, w], "scale": [x, y, z] }`,
//! a model as
//! `{ "texture": "file" | null, "vertices": [{ "pos": [x, y, z], "uv": [u, v] }, ..], "indices": [i, ..] }`.
//! On reading, fields may come in any order, fields with other names are
//! passed over, and a missing `texture` reads as no texture.

use crate::json::{
    entry_views,
    json_field,
    json_list,
    json_null,
    json_number,
    json_number_text,
    json_record,
    json_text,
    json_view,
    json_views,
    record_find,
    Json,
};
use crate::math::{are_numbers, scalar_views, Scalar, Transform, TransformView, Vertex, VertexView};
use crate::number::{
    int_string,
    int_text,
    is_number,
    lemma_int_text_is_number,
    lemma_text_int_of_int_text,
    parse_int,
    text_int,
};
use crate::primitive::{option_text, vertex_views, Model, ModelView};
use vstd::pervasive::unreached;
use vstd::prelude::*;

verus! {

/// The text of a number value; empty for any other value.
pub open spec fn number_text(j: Json) -> Seq<char> {
    match j {
        Json::Number(t) => t,
        _ => Seq::empty(),
    }
}

/// Whether `j` is a number in plain form.
pub open spec fn is_scalar(j: Json) -> bool {
    j is Number && is_number(number_text(j))
}

/// The array of the given numbers.
pub open spec fn numbers_json(s: Seq<Seq<char>>) -> Json {
    Json::List(s.map_values(|t: Seq<char>| Json::Number(t)))
}

/// The numbers of an array of exactly `n` numbers in plain form.
pub open spec fn json_numbers(j: Json, n: nat) -> Option<Seq<Seq<char>>> {
    match j {
        Json::List(items) => if items.len() == n && forall|i: int|
            0 <= i < items.len() ==> is_scalar(#[trigger] items[i]) {
            Some(items.map_values(|x: Json| number_text(x)))
        } else {
            None
        },
        _ => None,
    }
}

/// The value under `key` of an object; `None` for a value that is no object
/// or has no such key.
pub open spec fn field(j: Json, key: Seq<char>) -> Option<Json> {
    match j {
        Json::Record(entries) => record_find(entries, key),
        _ => None,
    }
}

/// The `n` numbers under `key`.
pub open spec fn numbers_field(j: Json, key: Seq<char>, n: nat) -> Option<Seq<Seq<char>>> {
    match field(j, key) {
        Some(x) => json_numbers(x, n),
        None => None,
    }
}

/// How a transform is written.
pub open spec fn transform_json(t: TransformView) -> Json {
    Json::Record(
        seq![
            ("position"@, numbers_json(t.position)),
            ("rotation"@, numbers_json(t.rotation)),
            ("scale"@, numbers_json(t.scale)),
        ],
    )
}

/// The transform that `j` is the shape of, if it is one.
pub open spec fn json_transform(j: Json) -> Option<TransformView> {
    match (
        numbers_field(j, "position"@, 3),
        numbers_field(j, "rotation"@, 4),
        numbers_field(j, "scale"@, 3),
    ) {
        (Some(position), Some(rotation), Some(scale)) => Some(
            TransformView { position, rotation, scale },
        ),
        _ => None,
    }
}

/// How a vertex is written.
pub open spec fn vertex_json(v: VertexView) -> Json {
    Json::Record(seq![("pos"@, numbers_json(v.pos)), ("uv"@, numbers_json(v.uv))])
}

/// The vertex that `j` is the shape of, if it is one.
pub open spec fn json_vertex(j: Json) -> Option<VertexView> {
    match (numbers_field(j, "pos"@, 3), numbers_field(j, "uv"@, 2)) {
        (Some(pos), Some(uv)) => Some(VertexView { pos, uv }),
        _ => None,
    }
}

/// How an index is written: as its decimal text.
pub open spec fn index_json(i: i16) -> Json {
    Json::Number(int_text(i as int))
}

/// The index that `j` is the decimal text of, if it is one and fits.
pub open spec fn json_index(j: Json) -> Option<i16> {
    match j {
        Json::Number(t) => match text_int(t) {
            Some(i) => if i16::MIN <= i <= i16::MAX {
                Some(i as i16)
            } else {
                None
            },
            None => None,
        },
        _ => None,
    }
}

/// How a texture reference is written: the file name, or `null`.
pub open spec fn texture_json(t: Option<Seq<char>>) -> Json {
    match t {
        Some(name) => Json::Text(name),
        None => Json::Null,
    }
}

/// The texture reference read from the field `texture`; `None` where the
/// field holds something other than a string or `null`.
pub open spec fn json_texture(f: Option<Json>) -> Option<Option<Seq<char>>> {
    match f {
        None => Some(None),
        Some(Json::Null) => Some(None),
        Some(Json::Text(name)) => Some(Some(name)),
        Some(_) => None,
    }
}

/// The vertices of an array of vertices.
pub open spec fn json_vertices(j: Json) -> Option<Seq<VertexView>> {
    match j {
        Json::List(items) => if forall|i: int|
            0 <= i < items.len() ==> json_vertex(#[trigger] items[i]) is Some {
            Some(items.map_values(|x: Json| json_vertex(x).unwrap()))
        } else {
            None
        },
        _ => None,
    }
}

/// The indices of an array of indices.
pub open spec fn json_indices(j: Json) -> Option<Seq<i16>> {
    match j {
        Json::List(items) => if forall|i: int|
            0 <= i < items.len() ==> json_index(#[trigger] items[i]) is Some {
            Some(items.map_values(|x: Json| json_index(x).unwrap()))
        } else {
            None
        },
        _ => None,
    }
}

/// How a model is written.
pub open spec fn model_json(m: ModelView) -> Json {
    Json::Record(
        seq![
            ("texture"@, texture_json(m.texture)),
            ("vertices"@, Json::List(m.vertices.map_values(|v: VertexView| vertex_json(v)))),
            ("indices"@, Json::List(m.indices.map_values(|i: i16| index_json(i)))),
        ],
    )
}

/// The model that `j` is the shape of, if it is one.
pub open spec fn json_model(j: Json) -> Option<ModelView> {
    match (json_texture(field(j, "texture"@)), field(j, "vertices"@), field(j, "indices"@)) {
        (Some(texture), Some(vs), Some(is)) => match (json_vertices(vs), json_indices(is)) {
            (Some(vertices), Some(indices)) => Some(ModelView { texture, vertices, indices }),
            _ => None,
        },
        _ => None,
    }
}

/// An array written from numbers reads back as those numbers.
pub proof fn lemma_numbers_round_trip(s: Seq<Seq<char>>, n: nat)
    requires
        are_numbers(s, n),
    ensures
        json_numbers(numbers_json(s), n) == Some(s),
{
    let items = s.map_values(|t: Seq<char>| Json::Number(t));
    assert forall|i: int| 0 <= i < items.len() implies is_scalar(#[trigger] items[i]) by {
        assert(is_number(s[i]));
    }
    assert(items.map_values(|x: Json| number_text(x)) =~= s);
}

/// A transform that is written and read comes back unchanged.
pub proof fn lemma_transform_round_trip(t: TransformView)
    requires
        t.wf(),
    ensures
        json_transform(transform_json(t)) == Some(t),
{
    lemma_keys_differ();
    lemma_numbers_round_trip(t.position, 3);
    lemma_numbers_round_trip(t.rotation, 4);
    lemma_numbers_round_trip(t.scale, 3);
    let entries = transform_json(t)->Record_0;
    reveal_with_fuel(record_find, 4);
    assert(entries.drop_first()[0] == entries[1]);
    assert(entries.drop_first().drop_first()[0] == entries[2]);
}

/// A vertex that is written and read comes back unchanged.
pub proof fn lemma_vertex_round_trip(v: VertexView)
    requires
        v.wf(),
    ensures
        json_vertex(vertex_json(v)) == Some(v),
{
    lemma_keys_differ();
    lemma_numbers_round_trip(v.pos, 3);
    lemma_numbers_round_trip(v.uv, 2);
    let entries = vertex_json(v)->Record_0;
    reveal_with_fuel(record_find, 3);
    assert(entries.drop_first()[0] == entries[1]);
}

/// A model that is written and read comes back unchanged.
pub proof fn lemma_model_round_trip(m: ModelView)
    requires
        m.wf(),
    ensures
        json_model(model_json(m)) == Some(m),
{
    lemma_keys_differ();
    let entries = model_json(m)->Record_0;
    reveal_with_fuel(record_find, 4);
    assert(entries.drop_first()[0] == entries[1]);
    assert(entries.drop_first().drop_first()[0] == entries[2]);
    let vs = m.vertices.map_values(|v: VertexView| vertex_json(v));
    assert forall|i: int| 0 <= i < vs.len() implies json_vertex(#[trigger] vs[i]) == Some(
        m.vertices[i],
    ) by {
        lemma_vertex_round_trip(m.vertices[i]);
    }
    assert(vs.map_values(|x: Json| json_vertex(x).unwrap()) =~= m.vertices);
    let is = m.indices.map_values(|i: i16| index_json(i));
    assert forall|i: int| 0 <= i < is.len() implies json_index(#[trigger] is[i]) == Some(
        m.indices[i],
    ) by {
        lemma_text_int_of_int_text(m.indices[i] as int);
    }
    assert(is.map_values(|x: Json| json_index(x).unwrap()) =~= m.indices);
}

/// Numbers that are read are numbers in plain form, as many as were asked
/// for.
pub proof fn lemma_read_numbers_wf(j: Json, n: nat)
    requires
        json_numbers(j, n) is Some,
    ensures
        are_numbers(json_numbers(j, n).unwrap(), n),
{
    let items = j->List_0;
    let s = json_numbers(j, n).unwrap();
    assert forall|i: int| 0 <= i < s.len() implies is_number(#[trigger] s[i]) by {
        assert(is_scalar(items[i]));
    }
}

/// A transform that is read is well formed.
pub proof fn lemma_read_transform_wf(j: Json)
    requires
        json_transform(j) is Some,
    ensures
        json_transform(j).unwrap().wf(),
{
    lemma_read_numbers_wf(field(j, "position"@).unwrap(), 3);
    lemma_read_numbers_wf(field(j, "rotation"@).unwrap(), 4);
    lemma_read_numbers_wf(field(j, "scale"@).unwrap(), 3);
}

/// A model that is read is well formed.
pub proof fn lemma_read_model_wf(j: Json)
    requires
        json_model(j) is Some,
    ensures
        json_model(j).unwrap().wf(),
{
    let m = json_model(j).unwrap();
    let items = field(j, "vertices"@).unwrap()->List_0;
    assert forall|i: int| 0 <= i < m.vertices.len() implies (#[trigger] m.vertices[i]).wf() by {
        let x = items[i];
        assert(json_vertex(x) is Some);
        lemma_read_numbers_wf(field(x, "pos"@).unwrap(), 3);
        lemma_read_numbers_wf(field(x, "uv"@).unwrap(), 2);
    }
}

/// The field names of one shape differ from each other.
pub proof fn lemma_keys_differ()
    ensures
        "position"@ != "rotation"@,
        "position"@ != "scale"@,
        "rotation"@ != "scale"@,
        "pos"@ != "uv"@,
        "texture"@ != "vertices"@,
        "texture"@ != "indices"@,
        "vertices"@ != "indices"@,
{
    reveal_strlit("position");
    reveal_strlit("rotation");
    reveal_strlit("scale");
    reveal_strlit("pos");
    reveal_strlit("uv");
    reveal_strlit("texture");
    reveal_strlit("vertices");
    reveal_strlit("indices");
    assert("position"@[0] != "rotation"@[0]);
    assert("position"@[0] != "scale"@[0]);
    assert("rotation"@[0] != "scale"@[0]);
    assert("pos"@[0] != "uv"@[0]);
    assert("texture"@[0] != "vertices"@[0]);
    assert("texture"@[0] != "indices"@[0]);
    assert("vertices"@[0] != "indices"@[0]);
}

/// Writes scalars as an array of numbers.
fn encode_numbers(s: &[Scalar]) -> (v: serde_json::Value)
    ensures
        json_view(v) == numbers_json(scalar_views(s@)),
{
    let mut items: Vec<serde_json::Value> = Vec::new();
    let mut i: usize = 0;
    while i < s.len()
        invariant
            i <= s.len(),
            items.len() == i,
            forall|k: int| 0 <= k < i ==> json_view(#[trigger] items@[k]) == Json::Number(s@[k]@),
        decreases s.len() - i,
    {
        match json_number(s[i].as_str()) {
            Some(v) => items.push(v),
            None => unreached(),
        }
        i = i + 1;
    }
    let v = json_list(items);
    assert(json_views(items@) =~= scalar_views(s@).map_values(|t: Seq<char>| Json::Number(t)));
    v
}

/// Reads an array of exactly `n` numbers in plain form.
fn decode_numbers(v: &serde_json::Value, n: usize) -> (r: Option<Vec<Scalar>>)
    ensures
        match json_numbers(json_view(*v), n as nat) {
            Some(s) => r is Some && scalar_views(r.unwrap()@) == s,
            None => r is None,
        },
        r is Some ==> r.unwrap().len() == n,
{
    let items = match v.as_array() {
        Some(items) => items,
        None => {
            return None;
        },
    };
    if items.len() != n {
        return None;
    }
    let ghost js = json_views(items@);
    let mut out: Vec<Scalar> = Vec::new();
    let mut i: usize = 0;
    while i < n
        invariant
            i <= n,
            n == items.len(),
            js == json_views(items@),
            json_view(*v) == Json::List(js),
            out.len() == i,
            forall|k: int| 0 <= k < i ==> is_scalar(#[trigger] js[k]),
            forall|k: int| 0 <= k < i ==> (#[trigger] out@[k])@ == number_text(js[k]),
        decreases n - i,
    {
        assert(js[i as int] == json_view(items@[i as int]));
        let text = match json_number_text(&items[i]) {
            Some(text) => text,
            None => {
                assert(!is_scalar(js[i as int]));
                return None;
            },
        };
        match Scalar::new(text.as_str()) {
            Some(s) => out.push(s),
            None => {
                assert(!is_scalar(js[i as int]));
                return None;
            },
        }
        i = i + 1;
    }
    assert(scalar_views(out@) =~= js.map_values(|x: Json| number_text(x)));
    Some(out)
}

/// Reads the `n` numbers under `key`.
fn decode_numbers_field(v: &serde_json::Value, key: &str, n: usize) -> (r: Option<Vec<Scalar>>)
    ensures
        match numbers_field(json_view(*v), key@, n as nat) {
            Some(s) => r is Some && scalar_views(r.unwrap()@) == s,
            None => r is None,
        },
        r is Some ==> r.unwrap().len() == n,
{
    match json_field(v, key) {
        Some(x) => decode_numbers(x, n),
        None => None,
    }
}

/// The two scalars of a vector of two.
fn pair(v: Vec<Scalar>) -> (r: [Scalar; 2])
    requires
        v.len() == 2,
    ensures
        r@ == v@,
{
    let ghost whole = v@;
    let mut v = v;
    let b = v.pop().unwrap();
    let a = v.pop().unwrap();
    let r = [a, b];
    assert(r@ =~= whole);
    r
}

/// The three scalars of a vector of three.
fn triple(v: Vec<Scalar>) -> (r: [Scalar; 3])
    requires
        v.len() == 3,
    ensures
        r@ == v@,
{
    let ghost whole = v@;
    let mut v = v;
    let c = v.pop().unwrap();
    let b = v.pop().unwrap();
    let a = v.pop().unwrap();
    let r = [a, b, c];
    assert(r@ =~= whole);
    r
}

/// The four scalars of a vector of four.
fn quadruple(v: Vec<Scalar>) -> (r: [Scalar; 4])
    requires
        v.len() == 4,
    ensures
        r@ == v@,
{
    let ghost whole = v@;
    let mut v = v;
    let d = v.pop().unwrap();
    let c = v.pop().unwrap();
    let b = v.pop().unwrap();
    let a = v.pop().unwrap();
    let r = [a, b, c, d];
    assert(r@ =~= whole);
    r
}

/// Writes a transform in its document shape.
pub fn encode_transform(t: &Transform) -> (v: serde_json::Value)
    ensures
        json_view(v) == transform_json(t@),
{
    let mut entries: Vec<(String, serde_json::Value)> = Vec::new();
    entries.push(("position".to_owned(), encode_numbers(t.position.as_slice())));
    entries.push(("rotation".to_owned(), encode_numbers(t.rotation.as_slice())));
    entries.push(("scale".to_owned(), encode_numbers(t.scale.as_slice())));
    proof {
        lemma_keys_differ();
        assert(entry_views(entries@) =~= transform_json(t@)->Record_0);
    }
    json_record(entries)
}

/// Reads a transform from its document shape.
pub fn decode_transform(v: &serde_json::Value) -> (r: Option<Transform>)
    ensures
        match json_transform(json_view(*v)) {
            Some(t) => r is Some && r.unwrap()@ == t,
            None => r is None,
        },
{
    let position = match decode_numbers_field(v, "position", 3) {
        Some(s) => s,
        None => {
            return None;
        },
    };
    let rotation = match decode_numbers_field(v, "rotation", 4) {
        Some(s) => s,
        None => {
            return None;
        },
    };
    let scale = match decode_numbers_field(v, "scale", 3) {
        Some(s) => s,
        None => {
            return None;
        },
    };
    Some(
        Transform {
            position: triple(position),
            rotation: quadruple(rotation),
            scale: triple(scale),
        },
    )
}

/// Writes a vertex in its document shape.
fn encode_vertex(x: &Vertex) -> (v: serde_json::Value)
    ensures
        json_view(v) == vertex_json(x@),
{
    let mut entries: Vec<(String, serde_json::Value)> = Vec::new();
    entries.push(("pos".to_owned(), encode_numbers(x.pos.as_slice())));
    entries.push(("uv".to_owned(), encode_numbers(x.uv.as_slice())));
    proof {
        lemma_keys_differ();
        assert(entry_views(entries@) =~= vertex_json(x@)->Record_0);
    }
    json_record(entries)
}

/// Reads a vertex from its document shape.
fn decode_vertex(v: &serde_json::Value) -> (r: Option<Vertex>)
    ensures
        match json_vertex(json_view(*v)) {
            Some(x) => r is Some && r.unwrap()@ == x,
            None => r is None,
        },
{
    let pos = match decode_numbers_field(v, "pos", 3) {
        Some(s) => s,
        None => {
            return None;
        },
    };
    let uv = match decode_numbers_field(v, "uv", 2) {
        Some(s) => s,
        None => {
            return None;
        },
    };
    Some(Vertex { pos: triple(pos), uv: pair(uv) })
}

/// Writes the vertices of a model as an array.
fn encode_vertices(xs: &Vec<Vertex>) -> (v: serde_json::Value)
    ensures
        json_view(v) == Json::List(vertex_views(xs@).map_values(|x: VertexView| vertex_json(x))),
{
    let mut items: Vec<serde_json::Value> = Vec::new();
    let mut i: usize = 0;
    while i < xs.len()
        invariant
            i <= xs.len(),
            items.len() == i,
            forall|k: int| 0 <= k < i ==> json_view(#[trigger] items@[k]) == vertex_json(xs@[k]@),
        decreases xs.len() - i,
    {
        items.push(encode_vertex(&xs[i]));
        i = i + 1;
    }
    let v = json_list(items);
    assert(json_views(items@) =~= vertex_views(xs@).map_values(|x: VertexView| vertex_json(x)));
    v
}

/// Reads an array of vertices.
fn decode_vertices(v: &serde_json::Value) -> (r: Option<Vec<Vertex>>)
    ensures
        match json_vertices(json_view(*v)) {
            Some(s) => r is Some && vertex_views(r.unwrap()@) == s,
            None => r is None,
        },
{
    let items = match v.as_array() {
        Some(items) => items,
        None => {
            return None;
        },
    };
    let ghost js = json_views(items@);
    let mut out: Vec<Vertex> = Vec::new();
    let mut i: usize = 0;
    while i < items.len()
        invariant
            i <= items.len(),
            js == json_views(items@),
            json_view(*v) == Json::List(js),
            out.len() == i,
            forall|k: int| 0 <= k < i ==> json_vertex(#[trigger] js[k]) == Some(out@[k]@),
        decreases items.len() - i,
    {
        assert(js[i as int] == json_view(items@[i as int]));
        match decode_vertex(&items[i]) {
            Some(x) => out.push(x),
            None => {
                return None;
            },
        }
        i = i + 1;
    }
    assert(vertex_views(out@) =~= js.map_values(|x: Json| json_vertex(x).unwrap()));
    Some(out)
}

/// Writes the indices of a model as an array.
fn encode_indices(xs: &Vec<i16>) -> (v: serde_json::Value)
    ensures
        json_view(v) == Json::List(xs@.map_values(|i: i16| index_json(i))),
{
    let mut items: Vec<serde_json::Value> = Vec::new();
    let mut i: usize = 0;
    while i < xs.len()
        invariant
            i <= xs.len(),
            items.len() == i,
            forall|k: int| 0 <= k < i ==> json_view(#[trigger] items@[k]) == index_json(xs@[k]),
        decreases xs.len() - i,
    {
        let text = int_string(xs[i]);
        proof {
            lemma_int_text_is_number(xs@[i as int] as int);
        }
        match json_number(text.as_str()) {
            Some(v) => items.push(v),
            None => unreached(),
        }
        i = i + 1;
    }
    let v = json_list(items);
    assert(json_views(items@) =~= xs@.map_values(|i: i16| index_json(i)));
    v
}

/// Reads an array of indices.
fn decode_indices(v: &serde_json::Value) -> (r: Option<Vec<i16>>)
    ensures
        match json_indices(json_view(*v)) {
            Some(s) => r is Some && r.unwrap()@ == s,
            None => r is None,
        },
{
    let items = match v.as_array() {
        Some(items) => items,
        None => {
            return None;
        },
    };
    let ghost js = json_views(items@);
    let mut out: Vec<i16> = Vec::new();
    let mut i: usize = 0;
    while i < items.len()
        invariant
            i <= items.len(),
            js == json_views(items@),
            json_view(*v) == Json::List(js),
            out.len() == i,
            forall|k: int| 0 <= k < i ==> json_index(#[trigger] js[k]) == Some(out@[k]),
        decreases items.len() - i,
    {
        assert(js[i as int] == json_view(items@[i as int]));
        let text = match json_number_text(&items[i]) {
            Some(text) => text,
            None => {
                return None;
            },
        };
        match parse_int(text.as_str()) {
            Some(x) => out.push(x),
            None => {
                return None;
            },
        }
        i = i + 1;
    }
    assert(out@ =~= js.map_values(|x: Json| json_index(x).unwrap()));
    Some(out)
}

/// Writes a texture reference.
fn encode_texture(t: &Option<String>) -> (v: serde_json::Value)
    ensures
        json_view(v) == texture_json(option_text(*t)),
{
    match t {
        Some(name) => json_text(name.clone()),
        None => json_null(),
    }
}

/// Reads the texture reference of a model. The outer `None` says that the
/// field holds neither a string nor `null`.
fn decode_texture(v: &serde_json::Value) -> (r: Option<Option<String>>)
    ensures
        match json_texture(field(json_view(*v), "texture"@)) {
            Some(t) => r is Some && option_text(r.unwrap()) == t,
            None => r is None,
        },
{
    match json_field(v, "texture") {
        None => Some(None),
        Some(x) => {
            if x.is_null() {
                Some(None)
            } else {
                match x.as_str() {
                    Some(name) => Some(Some(name.to_owned())),
                    None => None,
                }
            }
        },
    }
}

/// Writes a model in its document shape.
pub fn encode_model(m: &Model) -> (v: serde_json::Value)
    ensures
        json_view(v) == model_json(m@),
{
    let mut entries: Vec<(String, serde_json::Value)> = Vec::new();
    entries.push(("texture".to_owned(), encode_texture(&m.texture)));
    entries.push(("vertices".to_owned(), encode_vertices(&m.vertices)));
    entries.push(("indices".to_owned(), encode_indices(&m.indices)));
    proof {
        lemma_keys_differ();
        assert(entry_views(entries@) =~= model_json(m@)->Record_0);
    }
    json_record(entries)
}

/// Reads a model from its document shape.
pub fn decode_model(v: &serde_json::Value) -> (r: Option<Model>)
    ensures
        match json_model(json_view(*v)) {
            Some(m) => r is Some && r.unwrap()@ == m,
            None => r is None,
        },
{
    let texture = match decode_texture(v) {
        Some(t) => t,
        None => {
            return None;
        },
    };
    let vertices = match json_field(v, "vertices") {
        Some(x) => x,
        None => {
            return None;
        },
    };
    let indices = match json_field(v, "indices") {
        Some(x) => x,
        None => {
            return None;
        },
    };
    let vertices = match decode_vertices(vertices) {
        Some(xs) => xs,
        None => {
            return None;
        },
    };
    let indices = match decode_indices(indices) {
        Some(xs) => xs,
        None => {
            return None;
        },
    };
    Some(Model { texture, vertices, indices })
}

} // verus!
