//! The cache file format: the record collections serialized as JSON and
//! read back, with the round trip proved.
//!
//! The writer emits one canonical form — objects with a fixed field order,
//! no blanks, quotes and backslashes escaped — and the reader is the
//! general JSON reader of this library followed by a typed extraction, so
//! a cache file written here always reads back to the collection it came
//! from.

use vstd::prelude::*;

use crate::error::Error;
use crate::json::{
    is_num_char, jfields_view, json_view, jsons_view, parse_json, spec_num_end,
    spec_parse_arr_items, spec_parse_json, spec_parse_obj_items, spec_parse_string,
    spec_parse_value, spec_skip_ws, spec_unescape, spec_word_at, Json, JsonV,
};
use crate::schedule::{
    spec_encode_schedule, spec_decode_schedule, spec_encode_sessions, spec_encode_gp,
    spec_enc_gp_items, spec_cached_session, spec_sessions_from_cache, spec_gp_from_cache,
    spec_gps_from_cache_items, GrandPrixV, NormalWeekend, ScheduleV, Sessions, SprintWeekend,
};
use crate::text::{
    is_digit_char, is_ws, lemma_render_digits, lemma_render_parse_i64_roundtrip,
    lemma_render_parse_roundtrip, parse_usize, push_char, render_usize, spec_parse_i64,
    spec_parse_usize, spec_render_i64, spec_render_usize, str_eq,
};
use crate::quali::{qualis_view, CompletedQualifying, CompletedQualifyingV};
use crate::results::{races_view, CompletedRace, CompletedRaceV};
use crate::utils::{
    opt_view, position_rows_view, quali_rows_view, PositionInfo, PositionInfoV,
    QualiPositionInfo, QualiPositionInfoV,
};

verus! {

/// How one character appears inside an encoded string literal.
pub open spec fn esc_char(c: char) -> Seq<char> {
    if c == '"' {
        seq!['\\', '"']
    } else if c == '\\' {
        seq!['\\', '\\']
    } else {
        seq![c]
    }
}

/// How a text appears inside an encoded string literal: quotes and
/// backslashes escaped, everything else kept as it is.
pub open spec fn spec_escape(s: Seq<char>) -> Seq<char>
    decreases s.len(),
{
    if s.len() == 0 {
        Seq::empty()
    } else {
        esc_char(s[0]) + spec_escape(s.drop_first())
    }
}

/// Appends the escaped form of `s` to `out`.
pub fn append_escaped(s: &str, out: &mut String)
    ensures
        final(out)@ == old(out)@ + spec_escape(s@),
{
    let n: usize = s.unicode_len();
    proof {
        assert(s@.skip(0) =~= s@);
    }
    let mut i: usize = 0;
    while i < n
        invariant
            0 <= i <= n == s@.len(),
            out@ + spec_escape(s@.skip(i as int)) == old(out)@ + spec_escape(s@),
        decreases n - i,
    {
        let c = s.get_char(i);
        let ghost pre = out@;
        if c == '"' {
            push_char(out, '\\');
            push_char(out, '"');
        } else if c == '\\' {
            push_char(out, '\\');
            push_char(out, '\\');
        } else {
            push_char(out, c);
        }
        proof {
            assert(s@.skip(i as int)[0] == s@[i as int]);
            assert(s@.skip(i as int).drop_first() =~= s@.skip(i + 1));
            assert(out@ =~= pre + esc_char(s@[i as int]));
            assert(out@ + spec_escape(s@.skip(i + 1)) =~= pre + spec_escape(s@.skip(i as int)));
        }
        i = i + 1;
    }
    proof {
        assert(s@.skip(n as int) =~= Seq::<char>::empty());
        assert(out@ + spec_escape(s@.skip(n as int)) =~= out@);
    }
}

/// A text as an encoded string literal, quotes around the escaped body.
pub open spec fn spec_quoted(t: Seq<char>) -> Seq<char> {
    seq!['"'] + spec_escape(t) + seq!['"']
}

/// Appends `s` as a string literal to `out`.
pub fn append_quoted(s: &str, out: &mut String)
    ensures
        final(out)@ == old(out)@ + spec_quoted(s@),
{
    let ghost pre = out@;
    push_char(out, '"');
    append_escaped(s, out);
    push_char(out, '"');
    proof {
        assert(out@ =~= pre + spec_quoted(s@));
    }
}

/// The value of the first field named `key`, if any.
pub open spec fn spec_lookup(fields: Seq<(Seq<char>, JsonV)>, key: Seq<char>) -> Option<JsonV>
    decreases fields.len(),
{
    if fields.len() == 0 {
        None
    } else if fields[0].0 == key {
        Some(fields[0].1)
    } else {
        spec_lookup(fields.drop_first(), key)
    }
}

/// The views of object fields, one per field, in order.
pub proof fn lemma_jfields_view_index(fields: Seq<(String, Json)>)
    ensures
        jfields_view(fields).len() == fields.len(),
        forall|k: int|
            0 <= k < fields.len() ==> #[trigger] jfields_view(fields)[k] == (
                fields[k].0@,
                json_view(fields[k].1),
            ),
    decreases fields.len(),
{
    if fields.len() > 0 {
        let head = fields.drop_last();
        lemma_jfields_view_index(head);
        assert(forall|k: int| 0 <= k < head.len() ==> head[k] == fields[k]);
    }
}

/// The views of array items, one per item, in order.
pub proof fn lemma_jsons_view_index(items: Seq<Json>)
    ensures
        jsons_view(items).len() == items.len(),
        forall|k: int|
            0 <= k < items.len() ==> #[trigger] jsons_view(items)[k] == json_view(items[k]),
    decreases items.len(),
{
    if items.len() > 0 {
        let head = items.drop_last();
        lemma_jsons_view_index(head);
        assert(forall|k: int| 0 <= k < head.len() ==> head[k] == items[k]);
    }
}

proof fn lemma_lookup_found(fv: Seq<(Seq<char>, JsonV)>, key: Seq<char>, k: int)
    requires
        0 <= k < fv.len(),
        forall|t: int| 0 <= t < k ==> (#[trigger] fv[t]).0 != key,
        fv[k].0 == key,
    ensures
        spec_lookup(fv, key) == Some(fv[k].1),
    decreases k,
{
    if k > 0 {
        let tail = fv.drop_first();
        assert(forall|t: int| 0 <= t < k - 1 ==> (#[trigger] tail[t]).0 == fv[t + 1].0);
        lemma_lookup_found(tail, key, k - 1);
    }
}

proof fn lemma_lookup_none(fv: Seq<(Seq<char>, JsonV)>, key: Seq<char>)
    requires
        forall|t: int| 0 <= t < fv.len() ==> (#[trigger] fv[t]).0 != key,
    ensures
        spec_lookup(fv, key) is None,
    decreases fv.len(),
{
    if fv.len() > 0 {
        let tail = fv.drop_first();
        assert(forall|t: int| 0 <= t < tail.len() ==> (#[trigger] tail[t]).0 == fv[t + 1].0);
        lemma_lookup_none(tail, key);
    }
}

/// Finds the first field named `key` in an object's fields.
pub(crate) fn lookup<'a>(fields: &'a Vec<(String, Json)>, key: &str) -> (r: Option<&'a Json>)
    ensures
        (match r {
            Some(j) => spec_lookup(jfields_view(fields@), key@) == Some(json_view(*j)),
            None => spec_lookup(jfields_view(fields@), key@) is None,
        }),
{
    proof {
        lemma_jfields_view_index(fields@);
    }
    let mut k: usize = 0;
    while k < fields.len()
        invariant
            0 <= k <= fields@.len(),
            jfields_view(fields@).len() == fields@.len(),
            forall|t: int|
                0 <= t < fields@.len() ==> #[trigger] jfields_view(fields@)[t] == (
                    fields@[t].0@,
                    json_view(fields@[t].1),
                ),
            forall|t: int| 0 <= t < k ==> (#[trigger] jfields_view(fields@)[t]).0 != key@,
        decreases fields@.len() - k,
    {
        if str_eq(fields[k].0.as_str(), key) {
            proof {
                lemma_lookup_found(jfields_view(fields@), key@, k as int);
            }
            return Some(&fields[k].1);
        }
        k = k + 1;
    }
    proof {
        lemma_lookup_none(jfields_view(fields@), key@);
    }
    None
}

/// Is a row's view within the machine bounds its record type enforces?
pub open spec fn wf_position(p: PositionInfoV) -> bool {
    0 <= p.position <= usize::MAX && 0 <= p.points <= usize::MAX
}

/// One standings row in cache form: a fixed-order object.
pub open spec fn spec_encode_position(p: PositionInfoV) -> Seq<char> {
    seq!['{'] + spec_quoted("position"@) + seq![':'] + spec_render_usize(p.position) + seq![',']
        + spec_quoted("name"@) + seq![':'] + spec_quoted(p.name) + seq![','] + spec_quoted(
        "points"@,
    ) + seq![':'] + spec_render_usize(p.points) + seq!['}']
}

fn append_position(p: &PositionInfo, out: &mut String)
    ensures
        final(out)@ == old(out)@ + spec_encode_position(p@),
{
    let ghost pre = out@;
    push_char(out, '{');
    append_quoted("position", out);
    push_char(out, ':');
    render_usize(p.position, out);
    push_char(out, ',');
    append_quoted("name", out);
    push_char(out, ':');
    append_quoted(p.name.as_str(), out);
    push_char(out, ',');
    append_quoted("points", out);
    push_char(out, ':');
    render_usize(p.points, out);
    push_char(out, '}');
    proof {
        assert(out@ =~= pre + spec_encode_position(p@));
    }
}

/// The rows of a standings collection in cache form, comma-separated.
pub open spec fn spec_enc_pos_items(v: Seq<PositionInfoV>) -> Seq<char>
    decreases v.len(),
{
    if v.len() == 0 {
        Seq::empty()
    } else if v.len() == 1 {
        spec_encode_position(v[0])
    } else {
        spec_encode_position(v[0]) + seq![','] + spec_enc_pos_items(v.drop_first())
    }
}

/// A standings collection in cache form: the array of its rows.
pub open spec fn spec_encode_positions(v: Seq<PositionInfoV>) -> Seq<char> {
    seq!['['] + spec_enc_pos_items(v) + seq![']']
}

/// Writes a standings collection in cache form.
pub fn encode_position_infos(v: &Vec<PositionInfo>) -> (r: String)
    ensures
        r@ == spec_encode_positions(position_rows_view(v@)),
{
    let ghost vv = position_rows_view(v@);
    let mut out = String::new();
    push_char(&mut out, '[');
    proof {
        assert(out@ =~= seq!['[']);
        assert(vv.skip(0) =~= vv);
    }
    let mut i: usize = 0;
    while i < v.len()
        invariant
            0 <= i <= v@.len(),
            vv == position_rows_view(v@),
            vv.len() == v@.len(),
            out@ + spec_enc_pos_items(vv.skip(i as int)) == seq!['['] + spec_enc_pos_items(vv),
        decreases v@.len() - i,
    {
        let ghost pre = out@;
        append_position(&v[i], &mut out);
        proof {
            assert(vv.skip(i as int)[0] == vv[i as int]);
            assert(vv[i as int] == v@[i as int]@);
            assert(vv.skip(i as int).drop_first() =~= vv.skip(i + 1));
        }
        if i + 1 < v.len() {
            push_char(&mut out, ',');
            proof {
                assert(vv.skip(i as int).len() > 1);
                assert(out@ + spec_enc_pos_items(vv.skip(i + 1)) =~= pre + spec_enc_pos_items(
                    vv.skip(i as int),
                ));
            }
        } else {
            proof {
                assert(vv.skip(i as int).len() == 1);
                assert(spec_enc_pos_items(vv.skip(i + 1)) =~= Seq::<char>::empty());
                assert(out@ + spec_enc_pos_items(vv.skip(i + 1)) =~= pre + spec_enc_pos_items(
                    vv.skip(i as int),
                ));
            }
        }
        i = i + 1;
    }
    proof {
        assert(spec_enc_pos_items(vv.skip(v@.len() as int)) =~= Seq::<char>::empty());
        assert(out@ =~= seq!['['] + spec_enc_pos_items(vv));
    }
    push_char(&mut out, ']');
    proof {
        assert(out@ =~= spec_encode_positions(vv));
    }
    out
}

/// What one standings row reads back from a cache value: an object whose
/// `position` and `points` are digit numbers and whose `name` is text;
/// the first field of each name decides, other fields are ignored.
pub open spec fn spec_position_from_json(j: JsonV) -> Option<PositionInfoV> {
    match j {
        JsonV::Obj(fields) => match spec_lookup(fields, "position"@) {
            Some(JsonV::Num(pt)) => match spec_parse_usize(pt) {
                Some(pos) => match spec_lookup(fields, "name"@) {
                    Some(JsonV::Str(name)) => match spec_lookup(fields, "points"@) {
                        Some(JsonV::Num(qt)) => match spec_parse_usize(qt) {
                            Some(points) => Some(
                                PositionInfoV {
                                    position: pos as int,
                                    name: name,
                                    points: points as int,
                                },
                            ),
                            None => None,
                        },
                        _ => None,
                    },
                    _ => None,
                },
                None => None,
            },
            _ => None,
        },
        _ => None,
    }
}

fn position_from_json(j: &Json) -> (r: Option<PositionInfo>)
    ensures
        (match r {
            Some(p) => Some(p@),
            None => None,
        }) == spec_position_from_json(json_view(*j)),
{
    match j {
        Json::Obj(fields) => {
            let position = match lookup(fields, "position") {
                Some(Json::Num(pt)) => match parse_usize(pt.as_str()) {
                    Some(pos) => pos,
                    None => {
                        return None;
                    },
                },
                _ => {
                    return None;
                },
            };
            let name = match lookup(fields, "name") {
                Some(Json::Str(name)) => name.clone(),
                _ => {
                    return None;
                },
            };
            let points = match lookup(fields, "points") {
                Some(Json::Num(qt)) => match parse_usize(qt.as_str()) {
                    Some(points) => points,
                    None => {
                        return None;
                    },
                },
                _ => {
                    return None;
                },
            };
            Some(PositionInfo { position, name, points })
        },
        _ => None,
    }
}

/// What the rows of a cached standings array read back to, all or nothing.
pub open spec fn spec_positions_from_items(items: Seq<JsonV>) -> Option<Seq<PositionInfoV>>
    decreases items.len(),
{
    if items.len() == 0 {
        Some(Seq::empty())
    } else {
        match spec_position_from_json(items[0]) {
            None => None,
            Some(p) => match spec_positions_from_items(items.drop_first()) {
                None => None,
                Some(acc) => Some(seq![p] + acc),
            },
        }
    }
}

/// What a whole cache value reads back to: an array of standings rows.
pub open spec fn spec_positions_from_json(j: JsonV) -> Option<Seq<PositionInfoV>> {
    match j {
        JsonV::Arr(items) => spec_positions_from_items(items),
        _ => None,
    }
}

#[verifier::loop_isolation(false)]
fn positions_from_json(j: &Json) -> (r: Option<Vec<PositionInfo>>)
    ensures
        (match r {
            Some(v) => Some(position_rows_view(v@)),
            None => None,
        }) == spec_positions_from_json(json_view(*j)),
{
    match j {
        Json::Arr(items) => {
            proof {
                lemma_jsons_view_index(items@);
            }
            let ghost iv = jsons_view(items@);
            let mut out: Vec<PositionInfo> = Vec::new();
            proof {
                assert(iv.skip(0) =~= iv);
                assert(position_rows_view(out@) =~= Seq::<PositionInfoV>::empty());
            }
            let mut i: usize = 0;
            while i < items.len()
                invariant
                    0 <= i <= items@.len(),
                    iv == jsons_view(items@),
                    iv.len() == items@.len(),
                    forall|t: int|
                        0 <= t < items@.len() ==> #[trigger] iv[t] == json_view(items@[t]),
                    (match spec_positions_from_items(iv.skip(i as int)) {
                        Some(rest) => Some(position_rows_view(out@) + rest),
                        None => None,
                    }) == spec_positions_from_items(iv),
                decreases items@.len() - i,
            {
                proof {
                    assert(iv.skip(i as int)[0] == iv[i as int]);
                    assert(iv.skip(i as int).drop_first() =~= iv.skip(i + 1));
                }
                match position_from_json(&items[i]) {
                    None => {
                        proof {
                            assert(spec_position_from_json(iv[i as int]) is None);
                            assert(spec_positions_from_items(iv.skip(i as int)) is None);
                        }
                        return None;
                    },
                    Some(p) => {
                        let ghost pv = position_rows_view(out@);
                        out.push(p);
                        proof {
                            assert(position_rows_view(out@) =~= pv.push(p@));
                            match spec_positions_from_items(iv.skip(i + 1)) {
                                Some(rest) => {
                                    assert(position_rows_view(out@) + rest =~= pv + (seq![p@]
                                        + rest));
                                },
                                None => {},
                            }
                        }
                    },
                }
                i = i + 1;
            }
            proof {
                assert(iv.skip(items@.len() as int) =~= Seq::<JsonV>::empty());
                assert(position_rows_view(out@) + Seq::<PositionInfoV>::empty() =~= position_rows_view(out@));
            }
            Some(out)
        },
        _ => None,
    }
}

/// What reading a standings cache file yields: the collection whose
/// canonical form the text is, and a decode failure on anything else.
pub open spec fn spec_decode_positions(s: Seq<char>) -> Result<Seq<PositionInfoV>, Error> {
    match spec_parse_json(s) {
        None => Err(Error::Decode),
        Some(j) => match spec_positions_from_json(j) {
            None => Err(Error::Decode),
            Some(v) => Ok(v),
        },
    }
}

/// Reads a standings collection back from cache text.
pub fn decode_position_infos(s: &str) -> (r: Result<Vec<PositionInfo>, Error>)
    ensures
        (match r {
            Ok(v) => Ok(position_rows_view(v@)),
            Err(e) => Err(e),
        }) == spec_decode_positions(s@),
{
    match parse_json(s) {
        Err(_) => Err(Error::Decode),
        Ok(j) => match positions_from_json(&j) {
            None => Err(Error::Decode),
            Some(v) => Ok(v),
        },
    }
}


/// One character of a span equality, at a ground offset.
proof fn lemma_char_at(s: Seq<char>, i: int, enc: Seq<char>, d: int)
    requires
        0 <= i,
        i + enc.len() <= s.len(),
        s.subrange(i, i + enc.len()) == enc,
        0 <= d < enc.len(),
    ensures
        s[i + d] == enc[d],
{
    assert(s.subrange(i, i + enc.len())[d] == enc[d]);
}

/// A sub-span of a span equality, at ground offsets.
proof fn lemma_sub_at(s: Seq<char>, i: int, enc: Seq<char>, a: int, b: int)
    requires
        0 <= i,
        i + enc.len() <= s.len(),
        s.subrange(i, i + enc.len()) == enc,
        0 <= a <= b <= enc.len(),
    ensures
        s.subrange(i + a, i + b) == enc.subrange(a, b),
{
    assert forall|k: int| 0 <= k < b - a implies s.subrange(i + a, i + b)[k] == enc.subrange(
        a,
        b,
    )[k] by {
        assert(s.subrange(i, i + enc.len())[a + k] == enc[a + k]);
        assert(s.subrange(i + a, i + b)[k] == s[i + a + k]);
        assert(enc.subrange(a, b)[k] == enc[a + k]);
    }
    assert(s.subrange(i + a, i + b) =~= enc.subrange(a, b));
}

/// Reading a string literal back from its escaped form yields the text it
/// came from, whatever characters it holds.
proof fn lemma_parse_string_escaped(s: Seq<char>, i: int, t: Seq<char>)
    requires
        0 <= i,
        i + spec_escape(t).len() + 1 <= s.len(),
        s.subrange(i, i + spec_escape(t).len()) == spec_escape(t),
        s[i + spec_escape(t).len()] == '"',
    ensures
        spec_parse_string(s, i) == Some((t, i + spec_escape(t).len() + 1)),
    decreases t.len(),
{
    let e = spec_escape(t);
    if t.len() == 0 {
        assert(s[i] == '"');
    } else {
        let c = t[0];
        let t2 = t.drop_first();
        let e2 = spec_escape(t2);
        assert(e == esc_char(c) + e2);
        if c == '"' || c == '\\' {
            assert(esc_char(c) =~= seq!['\\', c]);
            lemma_char_at(s, i, e, 0);
            lemma_char_at(s, i, e, 1);
            assert(s[i] == '\\');
            assert(s[i + 1] == c);
            assert(spec_unescape(c) == Some(c));
            lemma_sub_at(s, i, e, 2, e.len() as int);
            assert(e.subrange(2, e.len() as int) =~= e2);
            lemma_parse_string_escaped(s, i + 2, t2);
            assert(seq![c] + t2 =~= t);
        } else {
            assert(esc_char(c) =~= seq![c]);
            lemma_char_at(s, i, e, 0);
            assert(s[i] == c);
            lemma_sub_at(s, i, e, 1, e.len() as int);
            assert(e.subrange(1, e.len() as int) =~= e2);
            lemma_parse_string_escaped(s, i + 1, t2);
            assert(seq![c] + t2 =~= t);
        }
    }
}

proof fn lemma_num_end_at(s: Seq<char>, i: int, j: int)
    requires
        0 <= i <= j <= s.len(),
        forall|k: int| i <= k < j ==> is_num_char(#[trigger] s[k]),
        j == s.len() || !is_num_char(s[j]),
    ensures
        spec_num_end(s, i) == j,
    decreases j - i,
{
    if i < j {
        lemma_num_end_at(s, i + 1, j);
    }
}

/// Reading a rendered number back yields exactly its digit span.
proof fn lemma_parse_value_num(s: Seq<char>, i: int, n: int, fuel: nat)
    requires
        fuel >= 1,
        0 <= n <= usize::MAX,
        0 <= i,
        i + spec_render_usize(n).len() <= s.len(),
        s.subrange(i, i + spec_render_usize(n).len()) == spec_render_usize(n),
        i + spec_render_usize(n).len() == s.len() || !is_num_char(
            s[i + spec_render_usize(n).len()],
        ),
    ensures
        spec_parse_value(s, i, fuel) == Some(
            (JsonV::Num(spec_render_usize(n)), i + spec_render_usize(n).len()),
        ),
{
    let d = spec_render_usize(n);
    lemma_render_parse_roundtrip(n);
    assert forall|k: int| i <= k < i + d.len() implies is_num_char(#[trigger] s[k]) by {
        assert(s.subrange(i, i + d.len())[k - i] == d[k - i]);
        assert(is_digit_char(d[k - i]));
    }
    lemma_char_at(s, i, d, 0);
    assert(is_digit_char(d[0]));
    assert(48 <= s[i] as int <= 57);
    assert(s[i] != 'n') by {
        assert('n' as int == 110);
    }
    assert(s[i] != 't') by {
        assert('t' as int == 116);
    }
    assert(s[i] != 'f') by {
        assert('f' as int == 102);
    }
    assert(s[i] != '"') by {
        assert('"' as int == 34);
    }
    assert(s[i] != '[') by {
        assert('[' as int == 91);
    }
    assert(s[i] != '{') by {
        assert('{' as int == 123);
    }
    assert(is_num_char(s[i]));
    lemma_num_end_at(s, i, i + d.len());
    assert(s.subrange(i, i + d.len()) == d);
}

/// The cache tree of one standings row.
pub open spec fn position_tree(p: PositionInfoV) -> JsonV {
    JsonV::Obj(
        seq![
            ("position"@, JsonV::Num(spec_render_usize(p.position))),
            ("name"@, JsonV::Str(p.name)),
            ("points"@, JsonV::Num(spec_render_usize(p.points))),
        ],
    )
}

/// Reading one encoded standings row back yields its cache tree.
#[verifier::rlimit(100)]
#[verifier::spinoff_prover]
proof fn lemma_parse_position(s: Seq<char>, i: int, p: PositionInfoV, fuel: nat)
    requires
        fuel >= 5,
        wf_position(p),
        0 <= i,
        i + spec_encode_position(p).len() <= s.len(),
        s.subrange(i, i + spec_encode_position(p).len()) == spec_encode_position(p),
    ensures
        spec_parse_value(s, i, fuel) == Some((position_tree(p), i + spec_encode_position(p).len())),
{
    let enc = spec_encode_position(p);
    let ek1 = spec_escape("position"@);
    let ek2 = spec_escape("name"@);
    let ek3 = spec_escape("points"@);
    let en = spec_escape(p.name);
    let r1 = spec_render_usize(p.position);
    let r2 = spec_render_usize(p.points);
    lemma_render_parse_roundtrip(p.position);
    lemma_render_parse_roundtrip(p.points);
    // segment offsets within the encoding, relative to its start
    let a1 = 1int;  // opening quote of the first key
    let a2 = a1 + ek1.len() + 2;  // ':' after the first key
    let a3 = a2 + 1;  // first number
    let a4 = a3 + r1.len();  // ',' after it
    let a5 = a4 + 1;  // opening quote of the second key
    let a6 = a5 + ek2.len() + 2;  // ':' after the second key
    let a7 = a6 + 1;  // opening quote of the name value
    let a8 = a7 + en.len() + 2;  // ',' after it
    let a9 = a8 + 1;  // opening quote of the third key
    let a10 = a9 + ek3.len() + 2;  // ':' after the third key
    let a11 = a10 + 1;  // second number
    let a12 = a11 + r2.len();  // closing brace
    assert(enc.len() == a12 + 1);
    lemma_char_at(s, i, enc, 0);
    assert(s[i] == '{');
    lemma_char_at(s, i, enc, a1);
    lemma_char_at(s, i, enc, a2);
    lemma_char_at(s, i, enc, a4);
    lemma_char_at(s, i, enc, a5);
    lemma_char_at(s, i, enc, a6);
    lemma_char_at(s, i, enc, a7);
    lemma_char_at(s, i, enc, a8);
    lemma_char_at(s, i, enc, a9);
    lemma_char_at(s, i, enc, a10);
    lemma_char_at(s, i, enc, a12);
    lemma_char_at(s, i, enc, a2 - 1);
    lemma_char_at(s, i, enc, a6 - 1);
    lemma_char_at(s, i, enc, a8 - 1);
    lemma_char_at(s, i, enc, a10 - 1);
    assert(s[i + a1] == '"' && s[i + a2] == ':' && s[i + a4] == ',');
    assert(s[i + a5] == '"' && s[i + a6] == ':' && s[i + a7] == '"' && s[i + a8] == ',');
    assert(s[i + a9] == '"' && s[i + a10] == ':' && s[i + a12] == '}');
    assert(s[i + a2 - 1] == '"' && s[i + a6 - 1] == '"' && s[i + a8 - 1] == '"' && s[i + a10 - 1]
        == '"');
    // the three keys and the name value
    lemma_sub_at(s, i, enc, a1 + 1, a1 + 1 + ek1.len());
    assert(enc.subrange(a1 + 1, a1 + 1 + ek1.len() as int) =~= ek1);
    lemma_parse_string_escaped(s, i + a1 + 1, "position"@);
    lemma_sub_at(s, i, enc, a5 + 1, a5 + 1 + ek2.len());
    assert(enc.subrange(a5 + 1, a5 + 1 + ek2.len() as int) =~= ek2);
    lemma_parse_string_escaped(s, i + a5 + 1, "name"@);
    lemma_sub_at(s, i, enc, a7 + 1, a7 + 1 + en.len());
    assert(enc.subrange(a7 + 1, a7 + 1 + en.len() as int) =~= en);
    lemma_parse_string_escaped(s, i + a7 + 1, p.name);
    lemma_sub_at(s, i, enc, a9 + 1, a9 + 1 + ek3.len());
    assert(enc.subrange(a9 + 1, a9 + 1 + ek3.len() as int) =~= ek3);
    lemma_parse_string_escaped(s, i + a9 + 1, "points"@);
    // the two numbers
    lemma_sub_at(s, i, enc, a3, a4);
    assert(enc.subrange(a3, a4) =~= r1);
    assert(!is_num_char(',')) by {
        assert(',' as int == 44);
    }
    lemma_parse_value_num(s, i + a3, p.position, (fuel - 2) as nat);
    lemma_sub_at(s, i, enc, a11, a12);
    assert(enc.subrange(a11, a12) =~= r2);
    assert(!is_num_char('}')) by {
        assert('}' as int == 125);
    }
    lemma_parse_value_num(s, i + a11, p.points, (fuel - 4) as nat);
    // every separator is followed by a non-blank, so skipping stands still
    assert(!is_ws('"') && !is_ws(':') && !is_ws(',') && !is_ws('}'));
    lemma_char_at(s, i, enc, a3);
    assert(is_digit_char(r1[0]));
    assert(!is_ws(s[i + a3]));
    lemma_char_at(s, i, enc, a11);
    assert(is_digit_char(r2[0]));
    assert(!is_ws(s[i + a11]));
    assert(spec_skip_ws(s, i + a1) == i + a1);
    assert(spec_skip_ws(s, i + a2 + 1) == i + a3);
    assert(spec_skip_ws(s, i + a4) == i + a4);
    assert(spec_skip_ws(s, i + a5) == i + a5);
    assert(spec_skip_ws(s, i + a6 + 1) == i + a7);
    assert(spec_skip_ws(s, i + a8) == i + a8);
    assert(spec_skip_ws(s, i + a9) == i + a9);
    assert(spec_skip_ws(s, i + a10 + 1) == i + a11);
    assert(spec_skip_ws(s, i + a12) == i + a12);
    // walk the object parse from the innermost field outwards
    let f1 = ("position"@, JsonV::Num(r1));
    let f2 = ("name"@, JsonV::Str(p.name));
    let f3 = ("points"@, JsonV::Num(r2));
    let acc0 = Seq::<(Seq<char>, JsonV)>::empty();
    assert(spec_parse_value(s, i + a11, (fuel - 4) as nat) == Some(
        (JsonV::Num(r2), i + a12),
    ));
    assert(spec_parse_obj_items(s, i + a9, acc0.push(f1).push(f2), (fuel - 3) as nat) == Some(
        (JsonV::Obj(acc0.push(f1).push(f2).push(f3)), i + a12 + 1),
    ));
    assert(spec_parse_value(s, i + a7, (fuel - 3) as nat) == Some(
        (JsonV::Str(p.name), i + a8),
    ));
    assert(spec_parse_obj_items(s, i + a5, acc0.push(f1), (fuel - 2) as nat) == Some(
        (JsonV::Obj(acc0.push(f1).push(f2).push(f3)), i + a12 + 1),
    ));
    assert(spec_parse_value(s, i + a3, (fuel - 2) as nat) == Some(
        (JsonV::Num(r1), i + a4),
    ));
    assert(spec_parse_obj_items(s, i + a1, acc0, (fuel - 1) as nat) == Some(
        (JsonV::Obj(acc0.push(f1).push(f2).push(f3)), i + a12 + 1),
    ));
    assert(acc0.push(f1).push(f2).push(f3) =~= seq![f1, f2, f3]);
    assert(s[i + a1] != '}');
    assert(spec_skip_ws(s, i + 1) == i + 1);
    assert(spec_parse_value(s, i, fuel) == Some((position_tree(p), i + a12 + 1)));
}

/// The cache trees of a standings collection, in order.
pub open spec fn pos_trees(v: Seq<PositionInfoV>) -> Seq<JsonV>
    decreases v.len(),
{
    if v.len() == 0 {
        Seq::empty()
    } else {
        seq![position_tree(v[0])] + pos_trees(v.drop_first())
    }
}

proof fn lemma_encode_position_len(p: PositionInfoV)
    requires
        wf_position(p),
    ensures
        spec_encode_position(p).len() >= 13,
{
    lemma_render_parse_roundtrip(p.position);
    lemma_render_parse_roundtrip(p.points);
}

proof fn lemma_enc_pos_items_len(v: Seq<PositionInfoV>)
    requires
        forall|k: int| 0 <= k < v.len() ==> wf_position(#[trigger] v[k]),
    ensures
        v.len() >= 1 ==> spec_enc_pos_items(v).len() >= 13 * v.len() - 1,
    decreases v.len(),
{
    if v.len() == 1 {
        lemma_encode_position_len(v[0]);
    } else if v.len() > 1 {
        lemma_encode_position_len(v[0]);
        let tail = v.drop_first();
        assert(forall|k: int| 0 <= k < tail.len() ==> tail[k] == v[k + 1]);
        lemma_enc_pos_items_len(tail);
    }
}

/// Reading the encoded rows of a non-empty collection back, with the
/// closing bracket behind them, yields their trees after what was already
/// accumulated.
#[verifier::rlimit(100)]
#[verifier::spinoff_prover]
proof fn lemma_parse_pos_items(
    s: Seq<char>,
    i: int,
    acc: Seq<JsonV>,
    v: Seq<PositionInfoV>,
    fuel: nat,
)
    requires
        v.len() >= 1,
        forall|k: int| 0 <= k < v.len() ==> wf_position(#[trigger] v[k]),
        0 <= i,
        i + spec_enc_pos_items(v).len() + 1 <= s.len(),
        s.subrange(i, i + spec_enc_pos_items(v).len()) == spec_enc_pos_items(v),
        s[i + spec_enc_pos_items(v).len()] == ']',
        fuel >= 2 * v.len() + 6,
    ensures
        spec_parse_arr_items(s, i, acc, fuel) == Some(
            (JsonV::Arr(acc + pos_trees(v)), i + spec_enc_pos_items(v).len() + 1),
        ),
    decreases v.len(),
{
    let its = spec_enc_pos_items(v);
    let e0 = spec_encode_position(v[0]);
    lemma_char_at(s, i, its, 0);
    assert(its[0] == e0[0]);
    assert(e0[0] == '{');
    assert(!is_ws('{'));
    assert(spec_skip_ws(s, i) == i);
    lemma_sub_at(s, i, its, 0, e0.len() as int);
    assert(its.subrange(0, e0.len() as int) =~= e0);
    lemma_parse_position(s, i, v[0], (fuel - 1) as nat);
    let after = i + e0.len();
    if v.len() == 1 {
        assert(its == e0);
        assert(s[after] == ']');
        assert(!is_ws(']'));
        assert(spec_skip_ws(s, after) == after);
        assert(pos_trees(v.drop_first()) =~= Seq::<JsonV>::empty());
        assert(pos_trees(v) =~= seq![position_tree(v[0])]);
        assert(acc.push(position_tree(v[0])) =~= acc + pos_trees(v));
    } else {
        let tail = v.drop_first();
        assert(forall|k: int| 0 <= k < tail.len() ==> tail[k] == v[k + 1]);
        let trest = spec_enc_pos_items(tail);
        assert(its == e0 + seq![','] + trest);
        lemma_char_at(s, i, its, e0.len() as int);
        assert(its[e0.len() as int] == ',');
        assert(s[after] == ',');
        assert(!is_ws(','));
        assert(spec_skip_ws(s, after) == after);
        lemma_sub_at(s, i, its, e0.len() + 1int, its.len() as int);
        assert(its.subrange(e0.len() + 1int, its.len() as int) =~= trest);
        assert(s[after + 1 + trest.len()] == ']') by {
            assert(after + 1 + trest.len() == i + its.len());
        }
        lemma_parse_pos_items(s, after + 1, acc.push(position_tree(v[0])), tail, (fuel - 1) as nat);
        assert(acc.push(position_tree(v[0])) + pos_trees(tail) =~= acc + pos_trees(v));
    }
}

/// One cache tree reads back to the row it encodes.
proof fn lemma_position_from_tree(p: PositionInfoV)
    requires
        wf_position(p),
    ensures
        spec_position_from_json(position_tree(p)) == Some(p),
{
    reveal_strlit("position");
    reveal_strlit("name");
    reveal_strlit("points");
    let f1 = ("position"@, JsonV::Num(spec_render_usize(p.position)));
    let f2 = ("name"@, JsonV::Str(p.name));
    let f3 = ("points"@, JsonV::Num(spec_render_usize(p.points)));
    let fields = seq![f1, f2, f3];
    assert("position"@.len() == 8 && "name"@.len() == 4 && "points"@.len() == 6);
    assert("position"@ != "name"@ && "position"@ != "points"@ && "name"@ != "points"@);
    assert(fields.drop_first() =~= seq![f2, f3]);
    assert(seq![f2, f3].drop_first() =~= seq![f3]);
    assert(spec_lookup(fields, "position"@) == Some(f1.1));
    assert(spec_lookup(seq![f3], "points"@) == Some(f3.1));
    assert(spec_lookup(seq![f2, f3], "name"@) == Some(f2.1));
    assert(spec_lookup(seq![f2, f3], "points"@) == Some(f3.1));
    assert(spec_lookup(fields, "name"@) == Some(f2.1));
    assert(spec_lookup(fields, "points"@) == Some(f3.1));
    lemma_render_parse_roundtrip(p.position);
    lemma_render_parse_roundtrip(p.points);
}

proof fn lemma_positions_from_trees(v: Seq<PositionInfoV>)
    requires
        forall|k: int| 0 <= k < v.len() ==> wf_position(#[trigger] v[k]),
    ensures
        spec_positions_from_items(pos_trees(v)) == Some(v),
    decreases v.len(),
{
    if v.len() == 0 {
        assert(pos_trees(v) =~= Seq::<JsonV>::empty());
        assert(Seq::<PositionInfoV>::empty() =~= v);
    } else {
        let tail = v.drop_first();
        assert(forall|k: int| 0 <= k < tail.len() ==> tail[k] == v[k + 1]);
        lemma_position_from_tree(v[0]);
        lemma_positions_from_trees(tail);
        let ts = pos_trees(v);
        assert(ts[0] == position_tree(v[0]));
        assert(ts.drop_first() =~= pos_trees(tail));
        assert(seq![v[0]] + tail =~= v);
    }
}

/// Writing a standings collection to cache and reading it back yields the
/// same collection, field for field.
#[verifier::rlimit(100)]
pub proof fn lemma_cache_roundtrip_positions(v: Seq<PositionInfoV>)
    requires
        forall|k: int| 0 <= k < v.len() ==> wf_position(#[trigger] v[k]),
    ensures
        spec_decode_positions(spec_encode_positions(v)) == Ok::<Seq<PositionInfoV>, Error>(v),
{
    let s = spec_encode_positions(v);
    assert(s.subrange(0, s.len() as int) =~= s);
    if v.len() > 0 {
        lemma_enc_pos_items_len(v);
    }
    assert(s.len() == spec_enc_pos_items(v).len() + 2);
    lemma_parse_positions_value(s, 0, v, s.len());
    lemma_char_at(s, 0, s, 0);
    assert(s[0] == '[');
    assert(!is_ws('['));
    assert(spec_skip_ws(s, 0) == 0);
    assert(spec_skip_ws(s, s.len() as int) == s.len());
    assert(spec_parse_json(s) == Some(JsonV::Arr(pos_trees(v))));
    lemma_positions_from_trees(v);
}

/// Is a race record's view within the machine bounds its type enforces?
pub open spec fn wf_race(r: CompletedRaceV) -> bool {
    0 <= r.round <= usize::MAX && (forall|k: int|
        0 <= k < r.results.len() ==> wf_position(#[trigger] r.results[k]))
}

/// One completed race in cache form: a fixed-order object whose results
/// field holds the standings-row array.
pub open spec fn spec_encode_race(r: CompletedRaceV) -> Seq<char> {
    seq!['{'] + spec_quoted("round"@) + seq![':'] + spec_render_usize(r.round) + seq![',']
        + spec_quoted("gp_name"@) + seq![':'] + spec_quoted(r.gp_name) + seq![','] + spec_quoted(
        "results"@,
    ) + seq![':'] + spec_encode_positions(r.results) + seq!['}']
}

fn append_race(r: &CompletedRace, out: &mut String)
    ensures
        final(out)@ == old(out)@ + spec_encode_race(r@),
{
    let ghost pre = out@;
    push_char(out, '{');
    append_quoted("round", out);
    push_char(out, ':');
    render_usize(r.round(), out);
    push_char(out, ',');
    append_quoted("gp_name", out);
    push_char(out, ':');
    append_quoted(r.gp_name().as_str(), out);
    push_char(out, ',');
    append_quoted("results", out);
    push_char(out, ':');
    let results = encode_position_infos(r.results());
    out.append(results.as_str());
    push_char(out, '}');
    proof {
        assert(out@ =~= pre + spec_encode_race(r@));
    }
}

/// The races of a collection in cache form, comma-separated.
pub open spec fn spec_enc_race_items(v: Seq<CompletedRaceV>) -> Seq<char>
    decreases v.len(),
{
    if v.len() == 0 {
        Seq::empty()
    } else if v.len() == 1 {
        spec_encode_race(v[0])
    } else {
        spec_encode_race(v[0]) + seq![','] + spec_enc_race_items(v.drop_first())
    }
}

/// A race collection in cache form: the array of its records.
pub open spec fn spec_encode_races(v: Seq<CompletedRaceV>) -> Seq<char> {
    seq!['['] + spec_enc_race_items(v) + seq![']']
}

/// Writes a race collection in cache form.
pub fn encode_races(v: &Vec<CompletedRace>) -> (r: String)
    ensures
        r@ == spec_encode_races(races_view(v@)),
{
    let ghost vv = races_view(v@);
    let mut out = String::new();
    push_char(&mut out, '[');
    proof {
        assert(out@ =~= seq!['[']);
        assert(vv.skip(0) =~= vv);
    }
    let mut i: usize = 0;
    while i < v.len()
        invariant
            0 <= i <= v@.len(),
            vv == races_view(v@),
            vv.len() == v@.len(),
            out@ + spec_enc_race_items(vv.skip(i as int)) == seq!['['] + spec_enc_race_items(vv),
        decreases v@.len() - i,
    {
        let ghost pre = out@;
        append_race(&v[i], &mut out);
        proof {
            assert(vv.skip(i as int)[0] == vv[i as int]);
            assert(vv[i as int] == v@[i as int]@);
            assert(vv.skip(i as int).drop_first() =~= vv.skip(i + 1));
        }
        if i + 1 < v.len() {
            push_char(&mut out, ',');
            proof {
                assert(vv.skip(i as int).len() > 1);
                assert(out@ + spec_enc_race_items(vv.skip(i + 1)) =~= pre + spec_enc_race_items(
                    vv.skip(i as int),
                ));
            }
        } else {
            proof {
                assert(vv.skip(i as int).len() == 1);
                assert(spec_enc_race_items(vv.skip(i + 1)) =~= Seq::<char>::empty());
                assert(out@ + spec_enc_race_items(vv.skip(i + 1)) =~= pre + spec_enc_race_items(
                    vv.skip(i as int),
                ));
            }
        }
        i = i + 1;
    }
    proof {
        assert(spec_enc_race_items(vv.skip(v@.len() as int)) =~= Seq::<char>::empty());
        assert(out@ =~= seq!['['] + spec_enc_race_items(vv));
    }
    push_char(&mut out, ']');
    proof {
        assert(out@ =~= spec_encode_races(vv));
    }
    out
}

/// What one race record reads back from a cache value.
pub open spec fn spec_race_from_json(j: JsonV) -> Option<CompletedRaceV> {
    match j {
        JsonV::Obj(fields) => match spec_lookup(fields, "round"@) {
            Some(JsonV::Num(rt)) => match spec_parse_usize(rt) {
                Some(round) => match spec_lookup(fields, "gp_name"@) {
                    Some(JsonV::Str(gp_name)) => match spec_lookup(fields, "results"@) {
                        Some(results_j) => match spec_positions_from_json(results_j) {
                            Some(results) => Some(
                                CompletedRaceV { round: round as int, gp_name, results },
                            ),
                            None => None,
                        },
                        None => None,
                    },
                    _ => None,
                },
                None => None,
            },
            _ => None,
        },
        _ => None,
    }
}

fn race_from_json(j: &Json) -> (r: Option<CompletedRace>)
    ensures
        (match r {
            Some(p) => Some(p@),
            None => None,
        }) == spec_race_from_json(json_view(*j)),
{
    match j {
        Json::Obj(fields) => {
            let round = match lookup(fields, "round") {
                Some(Json::Num(rt)) => match parse_usize(rt.as_str()) {
                    Some(round) => round,
                    None => {
                        return None;
                    },
                },
                _ => {
                    return None;
                },
            };
            let gp_name = match lookup(fields, "gp_name") {
                Some(Json::Str(gp_name)) => gp_name.clone(),
                _ => {
                    return None;
                },
            };
            let results = match lookup(fields, "results") {
                Some(results_j) => match positions_from_json(results_j) {
                    Some(results) => results,
                    None => {
                        return None;
                    },
                },
                None => {
                    return None;
                },
            };
            let out = CompletedRace::new(round, gp_name, results);
            proof {
                assert(out@ =~= spec_race_from_json(json_view(*j))->Some_0);
            }
            Some(out)
        },
        _ => None,
    }
}

/// What the items of a cached race array read back to, all or nothing.
pub open spec fn spec_races_from_items(items: Seq<JsonV>) -> Option<Seq<CompletedRaceV>>
    decreases items.len(),
{
    if items.len() == 0 {
        Some(Seq::empty())
    } else {
        match spec_race_from_json(items[0]) {
            None => None,
            Some(p) => match spec_races_from_items(items.drop_first()) {
                None => None,
                Some(acc) => Some(seq![p] + acc),
            },
        }
    }
}

/// What a whole cache value reads back to: an array of race records.
pub open spec fn spec_races_from_json(j: JsonV) -> Option<Seq<CompletedRaceV>> {
    match j {
        JsonV::Arr(items) => spec_races_from_items(items),
        _ => None,
    }
}

#[verifier::loop_isolation(false)]
fn races_from_json(j: &Json) -> (r: Option<Vec<CompletedRace>>)
    ensures
        (match r {
            Some(v) => Some(races_view(v@)),
            None => None,
        }) == spec_races_from_json(json_view(*j)),
{
    match j {
        Json::Arr(items) => {
            proof {
                lemma_jsons_view_index(items@);
            }
            let ghost iv = jsons_view(items@);
            let mut out: Vec<CompletedRace> = Vec::new();
            proof {
                assert(iv.skip(0) =~= iv);
                assert(races_view(out@) =~= Seq::<CompletedRaceV>::empty());
            }
            let mut i: usize = 0;
            while i < items.len()
                invariant
                    0 <= i <= items@.len(),
                    (match spec_races_from_items(iv.skip(i as int)) {
                        Some(rest) => Some(races_view(out@) + rest),
                        None => None,
                    }) == spec_races_from_items(iv),
                decreases items@.len() - i,
            {
                proof {
                    assert(iv.skip(i as int)[0] == iv[i as int]);
                    assert(iv.skip(i as int).drop_first() =~= iv.skip(i + 1));
                }
                match race_from_json(&items[i]) {
                    None => {
                        proof {
                            assert(spec_race_from_json(iv[i as int]) is None);
                            assert(spec_races_from_items(iv.skip(i as int)) is None);
                        }
                        return None;
                    },
                    Some(p) => {
                        let ghost pv = races_view(out@);
                        out.push(p);
                        proof {
                            assert(races_view(out@) =~= pv.push(p@));
                            match spec_races_from_items(iv.skip(i + 1)) {
                                Some(rest) => {
                                    assert(races_view(out@) + rest =~= pv + (seq![p@] + rest));
                                },
                                None => {},
                            }
                        }
                    },
                }
                i = i + 1;
            }
            proof {
                assert(iv.skip(items@.len() as int) =~= Seq::<JsonV>::empty());
                assert(races_view(out@) + Seq::<CompletedRaceV>::empty() =~= races_view(out@));
            }
            Some(out)
        },
        _ => None,
    }
}

/// What reading a race cache file yields.
pub open spec fn spec_decode_races(s: Seq<char>) -> Result<Seq<CompletedRaceV>, Error> {
    match spec_parse_json(s) {
        None => Err(Error::Decode),
        Some(j) => match spec_races_from_json(j) {
            None => Err(Error::Decode),
            Some(v) => Ok(v),
        },
    }
}

/// Reads a race collection back from cache text.
pub fn decode_races(s: &str) -> (r: Result<Vec<CompletedRace>, Error>)
    ensures
        (match r {
            Ok(v) => Ok(races_view(v@)),
            Err(e) => Err(e),
        }) == spec_decode_races(s@),
{
    match parse_json(s) {
        Err(_) => Err(Error::Decode),
        Ok(j) => match races_from_json(&j) {
            None => Err(Error::Decode),
            Some(v) => Ok(v),
        },
    }
}

/// An optional lap time in cache form: absent times are written as null.
pub open spec fn spec_encode_opt_time(o: Option<Seq<char>>) -> Seq<char> {
    match o {
        Some(t) => spec_quoted(t),
        None => "null"@,
    }
}

/// One qualifying row in cache form.
pub open spec fn spec_encode_quali_row(p: QualiPositionInfoV) -> Seq<char> {
    seq!['{'] + spec_quoted("position"@) + seq![':'] + spec_render_usize(p.position) + seq![',']
        + spec_quoted("name"@) + seq![':'] + spec_quoted(p.name) + seq![','] + spec_quoted("q1"@)
        + seq![':'] + spec_encode_opt_time(p.q1) + seq![','] + spec_quoted("q2"@) + seq![':']
        + spec_encode_opt_time(p.q2) + seq![','] + spec_quoted("q3"@) + seq![':']
        + spec_encode_opt_time(p.q3) + seq!['}']
}

fn append_opt_time(o: &Option<String>, out: &mut String)
    ensures
        final(out)@ == old(out)@ + spec_encode_opt_time(opt_view(*o)),
{
    match o {
        Some(t) => append_quoted(t.as_str(), out),
        None => out.append("null"),
    }
}

#[verifier::rlimit(100)]
fn append_quali_row(p: &QualiPositionInfo, out: &mut String)
    ensures
        final(out)@ == old(out)@ + spec_encode_quali_row(p@),
{
    let ghost pre = out@;
    push_char(out, '{');
    append_quoted("position", out);
    push_char(out, ':');
    render_usize(p.position, out);
    push_char(out, ',');
    append_quoted("name", out);
    push_char(out, ':');
    append_quoted(p.name.as_str(), out);
    push_char(out, ',');
    append_quoted("q1", out);
    push_char(out, ':');
    append_opt_time(&p.q1, out);
    push_char(out, ',');
    append_quoted("q2", out);
    push_char(out, ':');
    append_opt_time(&p.q2, out);
    push_char(out, ',');
    append_quoted("q3", out);
    push_char(out, ':');
    append_opt_time(&p.q3, out);
    push_char(out, '}');
    proof {
        assert(out@ =~= pre + spec_encode_quali_row(p@));
    }
}

/// The rows of one weekend's qualifying in cache form.
pub open spec fn spec_enc_quali_rows(v: Seq<QualiPositionInfoV>) -> Seq<char>
    decreases v.len(),
{
    if v.len() == 0 {
        Seq::empty()
    } else if v.len() == 1 {
        spec_encode_quali_row(v[0])
    } else {
        spec_encode_quali_row(v[0]) + seq![','] + spec_enc_quali_rows(v.drop_first())
    }
}

/// One completed qualifying weekend in cache form.
pub open spec fn spec_encode_quali(r: CompletedQualifyingV) -> Seq<char> {
    seq!['{'] + spec_quoted("round"@) + seq![':'] + spec_render_usize(r.round) + seq![',']
        + spec_quoted("gp_name"@) + seq![':'] + spec_quoted(r.gp_name) + seq![','] + spec_quoted(
        "results"@,
    ) + seq![':'] + seq!['['] + spec_enc_quali_rows(r.results) + seq![']'] + seq!['}']
}

#[verifier::rlimit(100)]
fn append_quali(r: &CompletedQualifying, out: &mut String)
    ensures
        final(out)@ == old(out)@ + spec_encode_quali(r@),
{
    let ghost pre = out@;
    push_char(out, '{');
    append_quoted("round", out);
    push_char(out, ':');
    render_usize(r.round(), out);
    push_char(out, ',');
    append_quoted("gp_name", out);
    push_char(out, ':');
    append_quoted(r.gp_name().as_str(), out);
    push_char(out, ',');
    append_quoted("results", out);
    push_char(out, ':');
    push_char(out, '[');
    let rows = r.results();
    let ghost vv = quali_rows_view(rows@);
    let ghost mid = out@;
    proof {
        assert(vv.skip(0) =~= vv);
    }
    let mut i: usize = 0;
    while i < rows.len()
        invariant
            0 <= i <= rows@.len(),
            vv == quali_rows_view(rows@),
            vv.len() == rows@.len(),
            out@ + spec_enc_quali_rows(vv.skip(i as int)) == mid + spec_enc_quali_rows(vv),
        decreases rows@.len() - i,
    {
        let ghost pre2 = out@;
        append_quali_row(&rows[i], out);
        proof {
            assert(vv.skip(i as int)[0] == vv[i as int]);
            assert(vv[i as int] == rows@[i as int]@);
            assert(vv.skip(i as int).drop_first() =~= vv.skip(i + 1));
        }
        if i + 1 < rows.len() {
            push_char(out, ',');
            proof {
                assert(vv.skip(i as int).len() > 1);
                assert(out@ + spec_enc_quali_rows(vv.skip(i + 1)) =~= pre2 + spec_enc_quali_rows(
                    vv.skip(i as int),
                ));
            }
        } else {
            proof {
                assert(vv.skip(i as int).len() == 1);
                assert(spec_enc_quali_rows(vv.skip(i + 1)) =~= Seq::<char>::empty());
                assert(out@ + spec_enc_quali_rows(vv.skip(i + 1)) =~= pre2 + spec_enc_quali_rows(
                    vv.skip(i as int),
                ));
            }
        }
        i = i + 1;
    }
    proof {
        assert(spec_enc_quali_rows(vv.skip(rows@.len() as int)) =~= Seq::<char>::empty());
        assert(out@ =~= mid + spec_enc_quali_rows(vv));
    }
    push_char(out, ']');
    push_char(out, '}');
    proof {
        assert(out@ =~= pre + spec_encode_quali(r@));
    }
}

/// The weekends of a qualifying collection in cache form.
pub open spec fn spec_enc_quali_items(v: Seq<CompletedQualifyingV>) -> Seq<char>
    decreases v.len(),
{
    if v.len() == 0 {
        Seq::empty()
    } else if v.len() == 1 {
        spec_encode_quali(v[0])
    } else {
        spec_encode_quali(v[0]) + seq![','] + spec_enc_quali_items(v.drop_first())
    }
}

/// A qualifying collection in cache form: the array of its records.
pub open spec fn spec_encode_qualis(v: Seq<CompletedQualifyingV>) -> Seq<char> {
    seq!['['] + spec_enc_quali_items(v) + seq![']']
}

/// Writes a qualifying collection in cache form.
pub fn encode_qualis(v: &Vec<CompletedQualifying>) -> (r: String)
    ensures
        r@ == spec_encode_qualis(qualis_view(v@)),
{
    let ghost vv = qualis_view(v@);
    let mut out = String::new();
    push_char(&mut out, '[');
    proof {
        assert(out@ =~= seq!['[']);
        assert(vv.skip(0) =~= vv);
    }
    let mut i: usize = 0;
    while i < v.len()
        invariant
            0 <= i <= v@.len(),
            vv == qualis_view(v@),
            vv.len() == v@.len(),
            out@ + spec_enc_quali_items(vv.skip(i as int)) == seq!['['] + spec_enc_quali_items(vv),
        decreases v@.len() - i,
    {
        let ghost pre = out@;
        append_quali(&v[i], &mut out);
        proof {
            assert(vv.skip(i as int)[0] == vv[i as int]);
            assert(vv[i as int] == v@[i as int]@);
            assert(vv.skip(i as int).drop_first() =~= vv.skip(i + 1));
        }
        if i + 1 < v.len() {
            push_char(&mut out, ',');
            proof {
                assert(vv.skip(i as int).len() > 1);
                assert(out@ + spec_enc_quali_items(vv.skip(i + 1)) =~= pre + spec_enc_quali_items(
                    vv.skip(i as int),
                ));
            }
        } else {
            proof {
                assert(vv.skip(i as int).len() == 1);
                assert(spec_enc_quali_items(vv.skip(i + 1)) =~= Seq::<char>::empty());
                assert(out@ + spec_enc_quali_items(vv.skip(i + 1)) =~= pre + spec_enc_quali_items(
                    vv.skip(i as int),
                ));
            }
        }
        i = i + 1;
    }
    proof {
        assert(spec_enc_quali_items(vv.skip(v@.len() as int)) =~= Seq::<char>::empty());
        assert(out@ =~= seq!['['] + spec_enc_quali_items(vv));
    }
    push_char(&mut out, ']');
    proof {
        assert(out@ =~= spec_encode_qualis(vv));
    }
    out
}

/// What one optional lap time reads back from a cache value.
pub open spec fn spec_opt_time_from_json(j: JsonV) -> Option<Option<Seq<char>>> {
    match j {
        JsonV::Null => Some(None),
        JsonV::Str(t) => Some(Some(t)),
        _ => None,
    }
}

/// What one qualifying row reads back from a cache value.
pub open spec fn spec_quali_row_from_json(j: JsonV) -> Option<QualiPositionInfoV> {
    match j {
        JsonV::Obj(fields) => match spec_lookup(fields, "position"@) {
            Some(JsonV::Num(pt)) => match spec_parse_usize(pt) {
                Some(pos) => match spec_lookup(fields, "name"@) {
                    Some(JsonV::Str(name)) => match spec_lookup(fields, "q1"@) {
                        Some(q1j) => match spec_opt_time_from_json(q1j) {
                            Some(q1) => match spec_lookup(fields, "q2"@) {
                                Some(q2j) => match spec_opt_time_from_json(q2j) {
                                    Some(q2) => match spec_lookup(fields, "q3"@) {
                                        Some(q3j) => match spec_opt_time_from_json(q3j) {
                                            Some(q3) => Some(
                                                QualiPositionInfoV {
                                                    position: pos as int,
                                                    name,
                                                    q1,
                                                    q2,
                                                    q3,
                                                },
                                            ),
                                            None => None,
                                        },
                                        None => None,
                                    },
                                    None => None,
                                },
                                None => None,
                            },
                            None => None,
                        },
                        None => None,
                    },
                    _ => None,
                },
                None => None,
            },
            _ => None,
        },
        _ => None,
    }
}

fn opt_time_from_json(j: &Json) -> (r: Option<Option<String>>)
    ensures
        (match r {
            Some(o) => Some(opt_view(o)),
            None => None,
        }) == spec_opt_time_from_json(json_view(*j)),
{
    match j {
        Json::Null => Some(None),
        Json::Str(t) => Some(Some(t.clone())),
        _ => None,
    }
}

fn quali_row_from_json(j: &Json) -> (r: Option<QualiPositionInfo>)
    ensures
        (match r {
            Some(p) => Some(p@),
            None => None,
        }) == spec_quali_row_from_json(json_view(*j)),
{
    match j {
        Json::Obj(fields) => {
            let position = match lookup(fields, "position") {
                Some(Json::Num(pt)) => match parse_usize(pt.as_str()) {
                    Some(pos) => pos,
                    None => {
                        return None;
                    },
                },
                _ => {
                    return None;
                },
            };
            let name = match lookup(fields, "name") {
                Some(Json::Str(name)) => name.clone(),
                _ => {
                    return None;
                },
            };
            let q1 = match lookup(fields, "q1") {
                Some(q1j) => match opt_time_from_json(q1j) {
                    Some(q1) => q1,
                    None => {
                        return None;
                    },
                },
                None => {
                    return None;
                },
            };
            let q2 = match lookup(fields, "q2") {
                Some(q2j) => match opt_time_from_json(q2j) {
                    Some(q2) => q2,
                    None => {
                        return None;
                    },
                },
                None => {
                    return None;
                },
            };
            let q3 = match lookup(fields, "q3") {
                Some(q3j) => match opt_time_from_json(q3j) {
                    Some(q3) => q3,
                    None => {
                        return None;
                    },
                },
                None => {
                    return None;
                },
            };
            Some(QualiPositionInfo { position, name, q1, q2, q3 })
        },
        _ => None,
    }
}

/// What the rows of a cached qualifying array read back to.
pub open spec fn spec_quali_rows_from_items(items: Seq<JsonV>) -> Option<Seq<QualiPositionInfoV>>
    decreases items.len(),
{
    if items.len() == 0 {
        Some(Seq::empty())
    } else {
        match spec_quali_row_from_json(items[0]) {
            None => None,
            Some(p) => match spec_quali_rows_from_items(items.drop_first()) {
                None => None,
                Some(acc) => Some(seq![p] + acc),
            },
        }
    }
}

/// What one qualifying weekend reads back from a cache value.
pub open spec fn spec_quali_from_json(j: JsonV) -> Option<CompletedQualifyingV> {
    match j {
        JsonV::Obj(fields) => match spec_lookup(fields, "round"@) {
            Some(JsonV::Num(rt)) => match spec_parse_usize(rt) {
                Some(round) => match spec_lookup(fields, "gp_name"@) {
                    Some(JsonV::Str(gp_name)) => match spec_lookup(fields, "results"@) {
                        Some(JsonV::Arr(items)) => match spec_quali_rows_from_items(items) {
                            Some(results) => Some(
                                CompletedQualifyingV { round: round as int, gp_name, results },
                            ),
                            None => None,
                        },
                        _ => None,
                    },
                    _ => None,
                },
                None => None,
            },
            _ => None,
        },
        _ => None,
    }
}

#[verifier::loop_isolation(false)]
fn quali_from_json(j: &Json) -> (r: Option<CompletedQualifying>)
    ensures
        (match r {
            Some(p) => Some(p@),
            None => None,
        }) == spec_quali_from_json(json_view(*j)),
{
    match j {
        Json::Obj(fields) => {
            let round = match lookup(fields, "round") {
                Some(Json::Num(rt)) => match parse_usize(rt.as_str()) {
                    Some(round) => round,
                    None => {
                        return None;
                    },
                },
                _ => {
                    return None;
                },
            };
            let gp_name = match lookup(fields, "gp_name") {
                Some(Json::Str(gp_name)) => gp_name.clone(),
                _ => {
                    return None;
                },
            };
            match lookup(fields, "results") {
                Some(Json::Arr(items)) => {
                    proof {
                        lemma_jsons_view_index(items@);
                    }
                    let ghost iv = jsons_view(items@);
                    let mut rows: Vec<QualiPositionInfo> = Vec::new();
                    proof {
                        assert(iv.skip(0) =~= iv);
                        assert(quali_rows_view(rows@) =~= Seq::<QualiPositionInfoV>::empty());
                    }
                    let mut i: usize = 0;
                    while i < items.len()
                        invariant
                            0 <= i <= items@.len(),
                            (match spec_quali_rows_from_items(iv.skip(i as int)) {
                                Some(rest) => Some(quali_rows_view(rows@) + rest),
                                None => None,
                            }) == spec_quali_rows_from_items(iv),
                        decreases items@.len() - i,
                    {
                        proof {
                            assert(iv.skip(i as int)[0] == iv[i as int]);
                            assert(iv.skip(i as int).drop_first() =~= iv.skip(i + 1));
                        }
                        match quali_row_from_json(&items[i]) {
                            None => {
                                proof {
                                    assert(spec_quali_row_from_json(iv[i as int]) is None);
                                    assert(spec_quali_rows_from_items(iv.skip(i as int)) is None);
                                }
                                return None;
                            },
                            Some(p) => {
                                let ghost pv = quali_rows_view(rows@);
                                rows.push(p);
                                proof {
                                    assert(quali_rows_view(rows@) =~= pv.push(p@));
                                    match spec_quali_rows_from_items(iv.skip(i + 1)) {
                                        Some(rest) => {
                                            assert(quali_rows_view(rows@) + rest =~= pv + (
                                            seq![p@] + rest));
                                        },
                                        None => {},
                                    }
                                }
                            },
                        }
                        i = i + 1;
                    }
                    proof {
                        assert(iv.skip(items@.len() as int) =~= Seq::<JsonV>::empty());
                        assert(quali_rows_view(rows@) + Seq::<QualiPositionInfoV>::empty()
                            =~= quali_rows_view(rows@));
                    }
                    let out = CompletedQualifying::new(round, gp_name, rows);
                    proof {
                        assert(out@ =~= spec_quali_from_json(json_view(*j))->Some_0);
                    }
                    Some(out)
                },
                _ => {
                    return None;
                },
            }
        },
        _ => None,
    }
}

/// What the items of a cached qualifying array read back to.
pub open spec fn spec_qualis_from_items(items: Seq<JsonV>) -> Option<Seq<CompletedQualifyingV>>
    decreases items.len(),
{
    if items.len() == 0 {
        Some(Seq::empty())
    } else {
        match spec_quali_from_json(items[0]) {
            None => None,
            Some(p) => match spec_qualis_from_items(items.drop_first()) {
                None => None,
                Some(acc) => Some(seq![p] + acc),
            },
        }
    }
}

/// What a whole cache value reads back to: an array of qualifying records.
pub open spec fn spec_qualis_from_json(j: JsonV) -> Option<Seq<CompletedQualifyingV>> {
    match j {
        JsonV::Arr(items) => spec_qualis_from_items(items),
        _ => None,
    }
}

#[verifier::loop_isolation(false)]
fn qualis_from_json(j: &Json) -> (r: Option<Vec<CompletedQualifying>>)
    ensures
        (match r {
            Some(v) => Some(qualis_view(v@)),
            None => None,
        }) == spec_qualis_from_json(json_view(*j)),
{
    match j {
        Json::Arr(items) => {
            proof {
                lemma_jsons_view_index(items@);
            }
            let ghost iv = jsons_view(items@);
            let mut out: Vec<CompletedQualifying> = Vec::new();
            proof {
                assert(iv.skip(0) =~= iv);
                assert(qualis_view(out@) =~= Seq::<CompletedQualifyingV>::empty());
            }
            let mut i: usize = 0;
            while i < items.len()
                invariant
                    0 <= i <= items@.len(),
                    (match spec_qualis_from_items(iv.skip(i as int)) {
                        Some(rest) => Some(qualis_view(out@) + rest),
                        None => None,
                    }) == spec_qualis_from_items(iv),
                decreases items@.len() - i,
            {
                proof {
                    assert(iv.skip(i as int)[0] == iv[i as int]);
                    assert(iv.skip(i as int).drop_first() =~= iv.skip(i + 1));
                }
                match quali_from_json(&items[i]) {
                    None => {
                        proof {
                            assert(spec_quali_from_json(iv[i as int]) is None);
                            assert(spec_qualis_from_items(iv.skip(i as int)) is None);
                        }
                        return None;
                    },
                    Some(p) => {
                        let ghost pv = qualis_view(out@);
                        out.push(p);
                        proof {
                            assert(qualis_view(out@) =~= pv.push(p@));
                            match spec_qualis_from_items(iv.skip(i + 1)) {
                                Some(rest) => {
                                    assert(qualis_view(out@) + rest =~= pv + (seq![p@] + rest));
                                },
                                None => {},
                            }
                        }
                    },
                }
                i = i + 1;
            }
            proof {
                assert(iv.skip(items@.len() as int) =~= Seq::<JsonV>::empty());
                assert(qualis_view(out@) + Seq::<CompletedQualifyingV>::empty() =~= qualis_view(
                    out@,
                ));
            }
            Some(out)
        },
        _ => None,
    }
}

/// What reading a qualifying cache file yields.
pub open spec fn spec_decode_qualis(s: Seq<char>) -> Result<Seq<CompletedQualifyingV>, Error> {
    match spec_parse_json(s) {
        None => Err(Error::Decode),
        Some(j) => match spec_qualis_from_json(j) {
            None => Err(Error::Decode),
            Some(v) => Ok(v),
        },
    }
}

/// Reads a qualifying collection back from cache text.
pub fn decode_qualis(s: &str) -> (r: Result<Vec<CompletedQualifying>, Error>)
    ensures
        (match r {
            Ok(v) => Ok(qualis_view(v@)),
            Err(e) => Err(e),
        }) == spec_decode_qualis(s@),
{
    match parse_json(s) {
        Err(_) => Err(Error::Decode),
        Ok(j) => match qualis_from_json(&j) {
            None => Err(Error::Decode),
            Some(v) => Ok(v),
        },
    }
}

/// Reading an encoded standings array back, as one value, yields the
/// trees of its rows.
#[verifier::rlimit(100)]
proof fn lemma_parse_positions_value(s: Seq<char>, i: int, v: Seq<PositionInfoV>, fuel: nat)
    requires
        forall|k: int| 0 <= k < v.len() ==> wf_position(#[trigger] v[k]),
        0 <= i,
        i + spec_encode_positions(v).len() <= s.len(),
        s.subrange(i, i + spec_encode_positions(v).len()) == spec_encode_positions(v),
        fuel >= 1,
        v.len() > 0 ==> fuel >= 2 * v.len() + 7,
    ensures
        spec_parse_value(s, i, fuel) == Some(
            (JsonV::Arr(pos_trees(v)), i + spec_encode_positions(v).len()),
        ),
{
    let enc = spec_encode_positions(v);
    let its = spec_enc_pos_items(v);
    assert(enc == seq!['['] + its + seq![']']);
    lemma_char_at(s, i, enc, 0);
    assert(s[i] == '[');
    assert(!is_ws('['));
    if v.len() == 0 {
        assert(its =~= Seq::<char>::empty());
        assert(enc.len() == 2);
        lemma_char_at(s, i, enc, 1);
        assert(s[i + 1] == ']');
        assert(!is_ws(']'));
        assert(spec_skip_ws(s, i + 1) == i + 1);
        assert(pos_trees(v) =~= Seq::<JsonV>::empty());
        assert(spec_parse_value(s, i, fuel) == Some((JsonV::Arr(Seq::<JsonV>::empty()), i + 2)));
    } else {
        lemma_enc_pos_items_len(v);
        lemma_encode_position_len(v[0]);
        lemma_char_at(s, i, enc, 1);
        assert(its[0] == spec_encode_position(v[0])[0]);
        assert(its[0] == '{');
        assert(s[i + 1] == '{');
        assert(!is_ws('{') && s[i + 1] != ']');
        assert(spec_skip_ws(s, i + 1) == i + 1);
        lemma_sub_at(s, i, enc, 1, 1 + its.len() as int);
        assert(enc.subrange(1, 1 + its.len() as int) =~= its);
        lemma_char_at(s, i, enc, 1 + its.len() as int);
        assert(s[i + 1 + its.len() as int] == ']');
        lemma_parse_pos_items(s, i + 1, Seq::<JsonV>::empty(), v, (fuel - 1) as nat);
        assert(Seq::<JsonV>::empty() + pos_trees(v) =~= pos_trees(v));
    }
}

/// The cache tree of one completed race.
pub open spec fn race_tree(r: CompletedRaceV) -> JsonV {
    JsonV::Obj(
        seq![
            ("round"@, JsonV::Num(spec_render_usize(r.round))),
            ("gp_name"@, JsonV::Str(r.gp_name)),
            ("results"@, JsonV::Arr(pos_trees(r.results))),
        ],
    )
}

proof fn lemma_encode_race_len(r: CompletedRaceV)
    requires
        wf_race(r),
    ensures
        spec_encode_race(r).len() >= 2 * r.results.len() + 13,
        spec_encode_race(r).len() >= 13,
{
    lemma_render_parse_roundtrip(r.round);
    if r.results.len() > 0 {
        lemma_enc_pos_items_len(r.results);
    }
}

/// Reading one encoded race record back yields its cache tree.
#[verifier::rlimit(100)]
#[verifier::spinoff_prover]
proof fn lemma_parse_race(s: Seq<char>, i: int, r: CompletedRaceV, fuel: nat)
    requires
        wf_race(r),
        fuel >= spec_encode_race(r).len(),
        0 <= i,
        i + spec_encode_race(r).len() <= s.len(),
        s.subrange(i, i + spec_encode_race(r).len()) == spec_encode_race(r),
    ensures
        spec_parse_value(s, i, fuel) == Some((race_tree(r), i + spec_encode_race(r).len())),
{
    let enc = spec_encode_race(r);
    let ek1 = spec_escape("round"@);
    let ek2 = spec_escape("gp_name"@);
    let ek3 = spec_escape("results"@);
    let en = spec_escape(r.gp_name);
    let r1 = spec_render_usize(r.round);
    let results_enc = spec_encode_positions(r.results);
    lemma_render_parse_roundtrip(r.round);
    lemma_encode_race_len(r);
    // segment offsets within the encoding, relative to its start
    let a1 = 1int;  // opening quote of the first key
    let a2 = a1 + ek1.len() + 2;  // ':' after the first key
    let a3 = a2 + 1;  // round number
    let a4 = a3 + r1.len();  // ',' after it
    let a5 = a4 + 1;  // opening quote of the second key
    let a6 = a5 + ek2.len() + 2;  // ':' after the second key
    let a7 = a6 + 1;  // opening quote of the name value
    let a8 = a7 + en.len() + 2;  // ',' after it
    let a9 = a8 + 1;  // opening quote of the third key
    let a10 = a9 + ek3.len() + 2;  // ':' after the third key
    let a11 = a10 + 1;  // results array
    let a12 = a11 + results_enc.len();  // closing brace
    assert(enc.len() == a12 + 1);
    lemma_char_at(s, i, enc, 0);
    assert(s[i] == '{');
    lemma_char_at(s, i, enc, a1);
    lemma_char_at(s, i, enc, a2 - 1);
    lemma_char_at(s, i, enc, a2);
    lemma_char_at(s, i, enc, a4);
    lemma_char_at(s, i, enc, a5);
    lemma_char_at(s, i, enc, a6 - 1);
    lemma_char_at(s, i, enc, a6);
    lemma_char_at(s, i, enc, a7);
    lemma_char_at(s, i, enc, a8 - 1);
    lemma_char_at(s, i, enc, a8);
    lemma_char_at(s, i, enc, a9);
    lemma_char_at(s, i, enc, a10 - 1);
    lemma_char_at(s, i, enc, a10);
    lemma_char_at(s, i, enc, a12);
    assert(s[i + a1] == '"' && s[i + a2 - 1] == '"' && s[i + a2] == ':' && s[i + a4] == ',');
    assert(s[i + a5] == '"' && s[i + a6 - 1] == '"' && s[i + a6] == ':' && s[i + a7] == '"');
    assert(s[i + a8 - 1] == '"' && s[i + a8] == ',');
    assert(s[i + a9] == '"' && s[i + a10 - 1] == '"' && s[i + a10] == ':' && s[i + a12] == '}');
    // the three keys and the name value
    lemma_sub_at(s, i, enc, a1 + 1, a1 + 1 + ek1.len());
    assert(enc.subrange(a1 + 1, a1 + 1 + ek1.len() as int) =~= ek1);
    lemma_parse_string_escaped(s, i + a1 + 1, "round"@);
    lemma_sub_at(s, i, enc, a5 + 1, a5 + 1 + ek2.len());
    assert(enc.subrange(a5 + 1, a5 + 1 + ek2.len() as int) =~= ek2);
    lemma_parse_string_escaped(s, i + a5 + 1, "gp_name"@);
    lemma_sub_at(s, i, enc, a7 + 1, a7 + 1 + en.len());
    assert(enc.subrange(a7 + 1, a7 + 1 + en.len() as int) =~= en);
    lemma_parse_string_escaped(s, i + a7 + 1, r.gp_name);
    lemma_sub_at(s, i, enc, a9 + 1, a9 + 1 + ek3.len());
    assert(enc.subrange(a9 + 1, a9 + 1 + ek3.len() as int) =~= ek3);
    lemma_parse_string_escaped(s, i + a9 + 1, "results"@);
    // the round number
    lemma_sub_at(s, i, enc, a3, a4);
    assert(enc.subrange(a3, a4) =~= r1);
    assert(!is_num_char(',')) by {
        assert(',' as int == 44);
    }
    lemma_parse_value_num(s, i + a3, r.round, (fuel - 2) as nat);
    // the results array
    lemma_sub_at(s, i, enc, a11, a12);
    assert(enc.subrange(a11, a12) =~= results_enc);
    if r.results.len() > 0 {
        lemma_enc_pos_items_len(r.results);
    }
    lemma_parse_positions_value(s, i + a11, r.results, (fuel - 4) as nat);
    // every separator is followed by a non-blank, so skipping stands still
    assert(!is_ws('"') && !is_ws(':') && !is_ws(',') && !is_ws('}') && !is_ws('['));
    lemma_char_at(s, i, enc, a3);
    assert(is_digit_char(r1[0]));
    assert(!is_ws(s[i + a3]));
    lemma_char_at(s, i, enc, a11);
    assert(s[i + a11] == '[');
    assert(spec_skip_ws(s, i + a1) == i + a1);
    assert(spec_skip_ws(s, i + a2 + 1) == i + a3);
    assert(spec_skip_ws(s, i + a4) == i + a4);
    assert(spec_skip_ws(s, i + a5) == i + a5);
    assert(spec_skip_ws(s, i + a6 + 1) == i + a7);
    assert(spec_skip_ws(s, i + a8) == i + a8);
    assert(spec_skip_ws(s, i + a9) == i + a9);
    assert(spec_skip_ws(s, i + a10 + 1) == i + a11);
    assert(spec_skip_ws(s, i + a12) == i + a12);
    // walk the object parse
    let f1 = ("round"@, JsonV::Num(r1));
    let f2 = ("gp_name"@, JsonV::Str(r.gp_name));
    let f3 = ("results"@, JsonV::Arr(pos_trees(r.results)));
    let acc0 = Seq::<(Seq<char>, JsonV)>::empty();
    assert(spec_parse_value(s, i + a11, (fuel - 4) as nat) == Some(
        (JsonV::Arr(pos_trees(r.results)), i + a12),
    ));
    assert(spec_parse_obj_items(s, i + a9, acc0.push(f1).push(f2), (fuel - 3) as nat) == Some(
        (JsonV::Obj(acc0.push(f1).push(f2).push(f3)), i + a12 + 1),
    ));
    assert(spec_parse_value(s, i + a7, (fuel - 3) as nat) == Some(
        (JsonV::Str(r.gp_name), i + a8),
    ));
    assert(spec_parse_obj_items(s, i + a5, acc0.push(f1), (fuel - 2) as nat) == Some(
        (JsonV::Obj(acc0.push(f1).push(f2).push(f3)), i + a12 + 1),
    ));
    assert(spec_parse_value(s, i + a3, (fuel - 2) as nat) == Some(
        (JsonV::Num(r1), i + a4),
    ));
    assert(spec_parse_obj_items(s, i + a1, acc0, (fuel - 1) as nat) == Some(
        (JsonV::Obj(acc0.push(f1).push(f2).push(f3)), i + a12 + 1),
    ));
    assert(acc0.push(f1).push(f2).push(f3) =~= seq![f1, f2, f3]);
    assert(s[i + a1] != '}');
    assert(spec_skip_ws(s, i + 1) == i + 1);
    assert(spec_parse_value(s, i, fuel) == Some((race_tree(r), i + a12 + 1)));
}

/// The cache trees of a race collection, in order.
pub open spec fn race_trees(v: Seq<CompletedRaceV>) -> Seq<JsonV>
    decreases v.len(),
{
    if v.len() == 0 {
        Seq::empty()
    } else {
        seq![race_tree(v[0])] + race_trees(v.drop_first())
    }
}

/// Reading the encoded records of a non-empty race collection back, with
/// the closing bracket behind them, yields their trees.
#[verifier::rlimit(100)]
#[verifier::spinoff_prover]
proof fn lemma_parse_race_items(
    s: Seq<char>,
    i: int,
    acc: Seq<JsonV>,
    v: Seq<CompletedRaceV>,
    fuel: nat,
)
    requires
        v.len() >= 1,
        forall|k: int| 0 <= k < v.len() ==> wf_race(#[trigger] v[k]),
        0 <= i,
        i + spec_enc_race_items(v).len() + 1 <= s.len(),
        s.subrange(i, i + spec_enc_race_items(v).len()) == spec_enc_race_items(v),
        s[i + spec_enc_race_items(v).len()] == ']',
        fuel >= spec_enc_race_items(v).len() + 1,
    ensures
        spec_parse_arr_items(s, i, acc, fuel) == Some(
            (JsonV::Arr(acc + race_trees(v)), i + spec_enc_race_items(v).len() + 1),
        ),
    decreases v.len(),
{
    let its = spec_enc_race_items(v);
    let e0 = spec_encode_race(v[0]);
    lemma_encode_race_len(v[0]);
    lemma_char_at(s, i, its, 0);
    assert(its[0] == e0[0]);
    assert(e0[0] == '{');
    assert(!is_ws('{'));
    assert(spec_skip_ws(s, i) == i);
    lemma_sub_at(s, i, its, 0, e0.len() as int);
    assert(its.subrange(0, e0.len() as int) =~= e0);
    lemma_parse_race(s, i, v[0], (fuel - 1) as nat);
    let after = i + e0.len();
    if v.len() == 1 {
        assert(its == e0);
        assert(s[after] == ']');
        assert(!is_ws(']'));
        assert(spec_skip_ws(s, after) == after);
        assert(race_trees(v.drop_first()) =~= Seq::<JsonV>::empty());
        assert(race_trees(v) =~= seq![race_tree(v[0])]);
        assert(acc.push(race_tree(v[0])) =~= acc + race_trees(v));
    } else {
        let tail = v.drop_first();
        assert(forall|k: int| 0 <= k < tail.len() ==> tail[k] == v[k + 1]);
        let trest = spec_enc_race_items(tail);
        assert(its == e0 + seq![','] + trest);
        lemma_char_at(s, i, its, e0.len() as int);
        assert(its[e0.len() as int] == ',');
        assert(s[after] == ',');
        assert(!is_ws(','));
        assert(spec_skip_ws(s, after) == after);
        lemma_sub_at(s, i, its, e0.len() + 1int, its.len() as int);
        assert(its.subrange(e0.len() + 1int, its.len() as int) =~= trest);
        assert(s[after + 1 + trest.len()] == ']') by {
            assert(after + 1 + trest.len() == i + its.len());
        }
        lemma_parse_race_items(s, after + 1, acc.push(race_tree(v[0])), tail, (fuel - 1) as nat);
        assert(acc.push(race_tree(v[0])) + race_trees(tail) =~= acc + race_trees(v));
    }
}

/// One cache tree reads back to the race it encodes.
proof fn lemma_race_from_tree(r: CompletedRaceV)
    requires
        wf_race(r),
    ensures
        spec_race_from_json(race_tree(r)) == Some(r),
{
    reveal_strlit("round");
    reveal_strlit("gp_name");
    reveal_strlit("results");
    let f1 = ("round"@, JsonV::Num(spec_render_usize(r.round)));
    let f2 = ("gp_name"@, JsonV::Str(r.gp_name));
    let f3 = ("results"@, JsonV::Arr(pos_trees(r.results)));
    let fields = seq![f1, f2, f3];
    assert("round"@.len() == 5 && "gp_name"@.len() == 7 && "results"@.len() == 7);
    assert("gp_name"@[0] == 'g' && "results"@[0] == 'r');
    assert("round"@ != "gp_name"@ && "round"@ != "results"@);
    assert("gp_name"@ != "results"@) by {
        if "gp_name"@ == "results"@ {
            assert("gp_name"@[0] == "results"@[0]);
        }
    }
    assert(fields.drop_first() =~= seq![f2, f3]);
    assert(seq![f2, f3].drop_first() =~= seq![f3]);
    assert(spec_lookup(fields, "round"@) == Some(f1.1));
    assert(spec_lookup(seq![f3], "results"@) == Some(f3.1));
    assert(spec_lookup(seq![f2, f3], "gp_name"@) == Some(f2.1));
    assert(spec_lookup(seq![f2, f3], "results"@) == Some(f3.1));
    assert(spec_lookup(fields, "gp_name"@) == Some(f2.1));
    assert(spec_lookup(fields, "results"@) == Some(f3.1));
    lemma_render_parse_roundtrip(r.round);
    lemma_positions_from_trees(r.results);
}

proof fn lemma_races_from_trees(v: Seq<CompletedRaceV>)
    requires
        forall|k: int| 0 <= k < v.len() ==> wf_race(#[trigger] v[k]),
    ensures
        spec_races_from_items(race_trees(v)) == Some(v),
    decreases v.len(),
{
    if v.len() == 0 {
        assert(race_trees(v) =~= Seq::<JsonV>::empty());
        assert(Seq::<CompletedRaceV>::empty() =~= v);
    } else {
        let tail = v.drop_first();
        assert(forall|k: int| 0 <= k < tail.len() ==> tail[k] == v[k + 1]);
        lemma_race_from_tree(v[0]);
        lemma_races_from_trees(tail);
        let ts = race_trees(v);
        assert(ts[0] == race_tree(v[0]));
        assert(ts.drop_first() =~= race_trees(tail));
        assert(seq![v[0]] + tail =~= v);
    }
}

/// Writing a race collection to cache and reading it back yields the same
/// collection, record for record.
#[verifier::rlimit(100)]
pub proof fn lemma_cache_roundtrip_races(v: Seq<CompletedRaceV>)
    requires
        forall|k: int| 0 <= k < v.len() ==> wf_race(#[trigger] v[k]),
    ensures
        spec_decode_races(spec_encode_races(v)) == Ok::<Seq<CompletedRaceV>, Error>(v),
{
    let s = spec_encode_races(v);
    let its = spec_enc_race_items(v);
    assert(s == seq!['['] + its + seq![']']);
    assert(s[0] == '[');
    assert(!is_ws('['));
    assert(spec_skip_ws(s, 0) == 0);
    if v.len() == 0 {
        assert(its =~= Seq::<char>::empty());
        assert(s.len() == 2 && s[1] == ']');
        assert(!is_ws(']'));
        assert(spec_skip_ws(s, 1) == 1);
        assert(spec_parse_value(s, 0, s.len()) == Some((JsonV::Arr(Seq::<JsonV>::empty()), 2int)));
        assert(spec_skip_ws(s, 2) == 2);
        assert(spec_parse_json(s) == Some(JsonV::Arr(Seq::<JsonV>::empty())));
        assert(spec_races_from_items(Seq::<JsonV>::empty()) == Some(
            Seq::<CompletedRaceV>::empty(),
        ));
        assert(spec_races_from_json(JsonV::Arr(Seq::<JsonV>::empty())) == Some(
            Seq::<CompletedRaceV>::empty(),
        ));
        assert(Seq::<CompletedRaceV>::empty() =~= v);
    } else {
        assert(s.len() == its.len() + 2);
        assert(s.subrange(1, 1 + its.len() as int) =~= its);
        assert(s[1 + its.len() as int] == ']');
        lemma_encode_race_len(v[0]);
        assert(its[0] == spec_encode_race(v[0])[0]);
        assert(its[0] == '{');
        assert(s[1] == its[0]) by {
            assert(s.subrange(1, 1 + its.len() as int)[0] == its[0]);
        }
        assert(!is_ws('{') && s[1] != ']');
        assert(spec_skip_ws(s, 1) == 1);
        lemma_parse_race_items(s, 1, Seq::<JsonV>::empty(), v, (s.len() - 1) as nat);
        assert(spec_parse_value(s, 0, s.len()) == Some(
            (JsonV::Arr(Seq::<JsonV>::empty() + race_trees(v)), s.len() as int),
        ));
        assert(spec_skip_ws(s, s.len() as int) == s.len());
        assert(Seq::<JsonV>::empty() + race_trees(v) =~= race_trees(v));
        lemma_races_from_trees(v);
    }
}


/// The cache tree of one optional lap time.
pub open spec fn opt_time_tree(o: Option<Seq<char>>) -> JsonV {
    match o {
        Some(t) => JsonV::Str(t),
        None => JsonV::Null,
    }
}

/// Reading an encoded optional lap time back yields its cache tree.
proof fn lemma_parse_opt_time(s: Seq<char>, i: int, o: Option<Seq<char>>, fuel: nat)
    requires
        fuel >= 1,
        0 <= i,
        i + spec_encode_opt_time(o).len() <= s.len(),
        s.subrange(i, i + spec_encode_opt_time(o).len()) == spec_encode_opt_time(o),
    ensures
        spec_parse_value(s, i, fuel) == Some((opt_time_tree(o), i + spec_encode_opt_time(o).len())),
        spec_encode_opt_time(o).len() >= 2,
        !is_ws(spec_encode_opt_time(o)[0]),
        spec_encode_opt_time(o)[0] == '"' || spec_encode_opt_time(o)[0] == 'n',
{
    let enc = spec_encode_opt_time(o);
    match o {
        Some(t) => {
            let et = spec_escape(t);
            assert(enc == spec_quoted(t));
            lemma_char_at(s, i, enc, 0);
            assert(s[i] == '"');
            lemma_char_at(s, i, enc, 1 + et.len() as int);
            assert(s[i + 1 + et.len() as int] == '"');
            lemma_sub_at(s, i, enc, 1, 1 + et.len() as int);
            assert(enc.subrange(1, 1 + et.len() as int) =~= et);
            lemma_parse_string_escaped(s, i + 1, t);
        },
        None => {
            reveal_strlit("null");
            assert(enc == "null"@);
            assert(enc.len() == 4);
            lemma_char_at(s, i, enc, 0);
            assert(s[i] == 'n');
            assert(spec_word_at(s, i, "null"@));
        },
    }
}

/// The cache tree of one qualifying row.
pub open spec fn quali_row_tree(p: QualiPositionInfoV) -> JsonV {
    JsonV::Obj(
        seq![
            ("position"@, JsonV::Num(spec_render_usize(p.position))),
            ("name"@, JsonV::Str(p.name)),
            ("q1"@, opt_time_tree(p.q1)),
            ("q2"@, opt_time_tree(p.q2)),
            ("q3"@, opt_time_tree(p.q3)),
        ],
    )
}

/// Is a qualifying row's view within its record type's machine bounds?
pub open spec fn wf_quali_row(p: QualiPositionInfoV) -> bool {
    0 <= p.position <= usize::MAX
}

proof fn lemma_encode_quali_row_len(p: QualiPositionInfoV)
    requires
        wf_quali_row(p),
    ensures
        spec_encode_quali_row(p).len() >= 13,
{
    lemma_render_parse_roundtrip(p.position);
}

/// The cache form of the three optional session times, from the first
/// time key to the closing brace.
pub open spec fn spec_enc_quali_times(
    q1: Option<Seq<char>>,
    q2: Option<Seq<char>>,
    q3: Option<Seq<char>>,
) -> Seq<char> {
    spec_quoted("q1"@) + seq![':'] + spec_encode_opt_time(q1) + seq![','] + spec_quoted("q2"@)
        + seq![':'] + spec_encode_opt_time(q2) + seq![','] + spec_quoted("q3"@) + seq![':']
        + spec_encode_opt_time(q3) + seq!['}']
}

/// Reading the three encoded session times back, from the first time key,
/// closes the row object with their trees appended.
#[verifier::rlimit(100)]
#[verifier::spinoff_prover]
proof fn lemma_parse_quali_times(
    s: Seq<char>,
    j: int,
    q1: Option<Seq<char>>,
    q2: Option<Seq<char>>,
    q3: Option<Seq<char>>,
    acc: Seq<(Seq<char>, JsonV)>,
    fuel: nat,
)
    requires
        fuel >= 4,
        0 <= j,
        j + spec_enc_quali_times(q1, q2, q3).len() <= s.len(),
        s.subrange(j, j + spec_enc_quali_times(q1, q2, q3).len()) == spec_enc_quali_times(
            q1,
            q2,
            q3,
        ),
    ensures
        spec_parse_obj_items(s, j, acc, fuel) == Some(
            (
                JsonV::Obj(
                    acc.push(("q1"@, opt_time_tree(q1))).push(("q2"@, opt_time_tree(q2))).push(
                        ("q3"@, opt_time_tree(q3)),
                    ),
                ),
                j + spec_enc_quali_times(q1, q2, q3).len(),
            ),
        ),
{
    let enc = spec_enc_quali_times(q1, q2, q3);
    let ek3 = spec_escape("q1"@);
    let ek4 = spec_escape("q2"@);
    let ek5 = spec_escape("q3"@);
    let q1e = spec_encode_opt_time(q1);
    let q2e = spec_encode_opt_time(q2);
    let q3e = spec_encode_opt_time(q3);
    let b1 = 0int;  // opening quote of the first time key
    let b2 = b1 + ek3.len() + 2;  // ':' after it
    let b3 = b2 + 1;  // first time value
    let b4 = b3 + q1e.len();  // ',' after it
    let b5 = b4 + 1;  // second time key
    let b6 = b5 + ek4.len() + 2;  // ':' after it
    let b7 = b6 + 1;  // second time value
    let b8 = b7 + q2e.len();  // ',' after it
    let b9 = b8 + 1;  // third time key
    let b10 = b9 + ek5.len() + 2;  // ':' after it
    let b11 = b10 + 1;  // third time value
    let b12 = b11 + q3e.len();  // closing brace
    assert(enc.len() == b12 + 1);
    lemma_char_at(s, j, enc, b1);
    lemma_char_at(s, j, enc, b2 - 1);
    lemma_char_at(s, j, enc, b2);
    lemma_char_at(s, j, enc, b4);
    lemma_char_at(s, j, enc, b5);
    lemma_char_at(s, j, enc, b6 - 1);
    lemma_char_at(s, j, enc, b6);
    lemma_char_at(s, j, enc, b8);
    lemma_char_at(s, j, enc, b9);
    lemma_char_at(s, j, enc, b10 - 1);
    lemma_char_at(s, j, enc, b10);
    lemma_char_at(s, j, enc, b12);
    assert(s[j + b1] == '"' && s[j + b2 - 1] == '"' && s[j + b2] == ':' && s[j + b4] == ',');
    assert(s[j + b5] == '"' && s[j + b6 - 1] == '"' && s[j + b6] == ':' && s[j + b8] == ',');
    assert(s[j + b9] == '"' && s[j + b10 - 1] == '"' && s[j + b10] == ':' && s[j + b12] == '}');
    lemma_sub_at(s, j, enc, b1 + 1, b1 + 1 + ek3.len());
    assert(enc.subrange(b1 + 1, b1 + 1 + ek3.len() as int) =~= ek3);
    lemma_parse_string_escaped(s, j + b1 + 1, "q1"@);
    lemma_sub_at(s, j, enc, b5 + 1, b5 + 1 + ek4.len());
    assert(enc.subrange(b5 + 1, b5 + 1 + ek4.len() as int) =~= ek4);
    lemma_parse_string_escaped(s, j + b5 + 1, "q2"@);
    lemma_sub_at(s, j, enc, b9 + 1, b9 + 1 + ek5.len());
    assert(enc.subrange(b9 + 1, b9 + 1 + ek5.len() as int) =~= ek5);
    lemma_parse_string_escaped(s, j + b9 + 1, "q3"@);
    lemma_sub_at(s, j, enc, b3, b4);
    assert(enc.subrange(b3, b4) =~= q1e);
    lemma_parse_opt_time(s, j + b3, q1, (fuel - 1) as nat);
    lemma_sub_at(s, j, enc, b7, b8);
    assert(enc.subrange(b7, b8) =~= q2e);
    lemma_parse_opt_time(s, j + b7, q2, (fuel - 2) as nat);
    lemma_sub_at(s, j, enc, b11, b12);
    assert(enc.subrange(b11, b12) =~= q3e);
    lemma_parse_opt_time(s, j + b11, q3, (fuel - 3) as nat);
    assert(!is_ws('"') && !is_ws(':') && !is_ws(',') && !is_ws('}'));
    lemma_char_at(s, j, enc, b3);
    assert(s[j + b3] == q1e[0]);
    lemma_char_at(s, j, enc, b7);
    assert(s[j + b7] == q2e[0]);
    lemma_char_at(s, j, enc, b11);
    assert(s[j + b11] == q3e[0]);
    assert(spec_skip_ws(s, j + b1) == j + b1);
    assert(spec_skip_ws(s, j + b2 + 1) == j + b3);
    assert(spec_skip_ws(s, j + b4) == j + b4);
    assert(spec_skip_ws(s, j + b5) == j + b5);
    assert(spec_skip_ws(s, j + b6 + 1) == j + b7);
    assert(spec_skip_ws(s, j + b8) == j + b8);
    assert(spec_skip_ws(s, j + b9) == j + b9);
    assert(spec_skip_ws(s, j + b10 + 1) == j + b11);
    assert(spec_skip_ws(s, j + b12) == j + b12);
    let f3 = ("q1"@, opt_time_tree(q1));
    let f4 = ("q2"@, opt_time_tree(q2));
    let f5 = ("q3"@, opt_time_tree(q3));
    assert(spec_parse_obj_items(s, j + b9, acc.push(f3).push(f4), (fuel - 2) as nat) == Some(
        (JsonV::Obj(acc.push(f3).push(f4).push(f5)), j + b12 + 1),
    ));
    assert(spec_parse_obj_items(s, j + b5, acc.push(f3), (fuel - 1) as nat) == Some(
        (JsonV::Obj(acc.push(f3).push(f4).push(f5)), j + b12 + 1),
    ));
    assert(spec_parse_obj_items(s, j, acc, fuel) == Some(
        (JsonV::Obj(acc.push(f3).push(f4).push(f5)), j + b12 + 1),
    ));
}

/// Reading one encoded qualifying row back yields its cache tree.
#[verifier::rlimit(100)]
#[verifier::spinoff_prover]
proof fn lemma_parse_quali_row(s: Seq<char>, i: int, p: QualiPositionInfoV, fuel: nat)
    requires
        wf_quali_row(p),
        fuel >= spec_encode_quali_row(p).len(),
        0 <= i,
        i + spec_encode_quali_row(p).len() <= s.len(),
        s.subrange(i, i + spec_encode_quali_row(p).len()) == spec_encode_quali_row(p),
    ensures
        spec_parse_value(s, i, fuel) == Some(
            (quali_row_tree(p), i + spec_encode_quali_row(p).len()),
        ),
{
    let enc = spec_encode_quali_row(p);
    let ek1 = spec_escape("position"@);
    let ek2 = spec_escape("name"@);
    let en = spec_escape(p.name);
    let r1 = spec_render_usize(p.position);
    let times = spec_enc_quali_times(p.q1, p.q2, p.q3);
    lemma_render_parse_roundtrip(p.position);
    lemma_encode_quali_row_len(p);
    let a1 = 1int;  // opening quote of the first key
    let a2 = a1 + ek1.len() + 2;  // ':' after it
    let a3 = a2 + 1;  // the position number
    let a4 = a3 + r1.len();  // ',' after it
    let a5 = a4 + 1;  // second key
    let a6 = a5 + ek2.len() + 2;  // ':' after it
    let a7 = a6 + 1;  // name value
    let a8 = a7 + en.len() + 2;  // ',' after it
    let a9 = a8 + 1;  // the three time fields and the closing brace
    assert(enc.len() == a9 + times.len());
    assert(enc =~= seq!['{'] + spec_quoted("position"@) + seq![':'] + r1 + seq![','] + spec_quoted(
        "name"@,
    ) + seq![':'] + spec_quoted(p.name) + seq![','] + times);
    lemma_char_at(s, i, enc, 0);
    assert(s[i] == '{');
    lemma_char_at(s, i, enc, a1);
    lemma_char_at(s, i, enc, a2 - 1);
    lemma_char_at(s, i, enc, a2);
    lemma_char_at(s, i, enc, a4);
    lemma_char_at(s, i, enc, a5);
    lemma_char_at(s, i, enc, a6 - 1);
    lemma_char_at(s, i, enc, a6);
    lemma_char_at(s, i, enc, a7);
    lemma_char_at(s, i, enc, a8 - 1);
    lemma_char_at(s, i, enc, a8);
    assert(s[i + a1] == '"' && s[i + a2 - 1] == '"' && s[i + a2] == ':' && s[i + a4] == ',');
    assert(s[i + a5] == '"' && s[i + a6 - 1] == '"' && s[i + a6] == ':' && s[i + a7] == '"');
    assert(s[i + a8 - 1] == '"' && s[i + a8] == ',');
    lemma_sub_at(s, i, enc, a1 + 1, a1 + 1 + ek1.len());
    assert(enc.subrange(a1 + 1, a1 + 1 + ek1.len() as int) =~= ek1);
    lemma_parse_string_escaped(s, i + a1 + 1, "position"@);
    lemma_sub_at(s, i, enc, a5 + 1, a5 + 1 + ek2.len());
    assert(enc.subrange(a5 + 1, a5 + 1 + ek2.len() as int) =~= ek2);
    lemma_parse_string_escaped(s, i + a5 + 1, "name"@);
    lemma_sub_at(s, i, enc, a7 + 1, a7 + 1 + en.len());
    assert(enc.subrange(a7 + 1, a7 + 1 + en.len() as int) =~= en);
    lemma_parse_string_escaped(s, i + a7 + 1, p.name);
    lemma_sub_at(s, i, enc, a3, a4);
    assert(enc.subrange(a3, a4) =~= r1);
    assert(!is_num_char(',')) by {
        assert(',' as int == 44);
    }
    lemma_parse_value_num(s, i + a3, p.position, (fuel - 2) as nat);
    lemma_sub_at(s, i, enc, a9, a9 + times.len());
    assert(enc.subrange(a9, a9 + times.len() as int) =~= times);
    lemma_parse_quali_times(s, i + a9, p.q1, p.q2, p.q3, Seq::<(Seq<char>, JsonV)>::empty().push(
        ("position"@, JsonV::Num(r1)),
    ).push(("name"@, JsonV::Str(p.name))), (fuel - 3) as nat);
    assert(!is_ws('"') && !is_ws(':') && !is_ws(','));
    lemma_char_at(s, i, enc, a3);
    assert(is_digit_char(r1[0]));
    assert(!is_ws(s[i + a3]));
    assert(spec_skip_ws(s, i + a1) == i + a1);
    assert(spec_skip_ws(s, i + a2 + 1) == i + a3);
    assert(spec_skip_ws(s, i + a4) == i + a4);
    assert(spec_skip_ws(s, i + a5) == i + a5);
    assert(spec_skip_ws(s, i + a6 + 1) == i + a7);
    assert(spec_skip_ws(s, i + a8) == i + a8);
    let f1 = ("position"@, JsonV::Num(r1));
    let f2 = ("name"@, JsonV::Str(p.name));
    let f3 = ("q1"@, opt_time_tree(p.q1));
    let f4 = ("q2"@, opt_time_tree(p.q2));
    let f5 = ("q3"@, opt_time_tree(p.q3));
    let acc0 = Seq::<(Seq<char>, JsonV)>::empty();
    let done = JsonV::Obj(acc0.push(f1).push(f2).push(f3).push(f4).push(f5));
    assert(spec_parse_obj_items(s, i + a9, acc0.push(f1).push(f2), (fuel - 3) as nat) == Some(
        (done, i + a9 + times.len()),
    ));
    assert(spec_parse_value(s, i + a7, (fuel - 3) as nat) == Some(
        (JsonV::Str(p.name), i + a8),
    ));
    assert(spec_parse_obj_items(s, i + a5, acc0.push(f1), (fuel - 2) as nat) == Some(
        (done, i + a9 + times.len()),
    ));
    assert(spec_parse_value(s, i + a3, (fuel - 2) as nat) == Some((JsonV::Num(r1), i + a4)));
    assert(spec_parse_obj_items(s, i + a1, acc0, (fuel - 1) as nat) == Some(
        (done, i + a9 + times.len()),
    ));
    assert(acc0.push(f1).push(f2).push(f3).push(f4).push(f5) =~= seq![f1, f2, f3, f4, f5]);
    assert(s[i + a1] != '}');
    assert(spec_skip_ws(s, i + 1) == i + 1);
    assert(spec_parse_value(s, i, fuel) == Some((quali_row_tree(p), i + enc.len())));
}

/// The cache trees of a weekend's qualifying rows, in order.
pub open spec fn quali_row_trees(v: Seq<QualiPositionInfoV>) -> Seq<JsonV>
    decreases v.len(),
{
    if v.len() == 0 {
        Seq::empty()
    } else {
        seq![quali_row_tree(v[0])] + quali_row_trees(v.drop_first())
    }
}

/// Reading the encoded rows of a non-empty qualifying classification back
/// yields their trees.
#[verifier::rlimit(100)]
proof fn lemma_parse_quali_row_items(
    s: Seq<char>,
    i: int,
    acc: Seq<JsonV>,
    v: Seq<QualiPositionInfoV>,
    fuel: nat,
)
    requires
        v.len() >= 1,
        forall|k: int| 0 <= k < v.len() ==> wf_quali_row(#[trigger] v[k]),
        0 <= i,
        i + spec_enc_quali_rows(v).len() + 1 <= s.len(),
        s.subrange(i, i + spec_enc_quali_rows(v).len()) == spec_enc_quali_rows(v),
        s[i + spec_enc_quali_rows(v).len()] == ']',
        fuel >= spec_enc_quali_rows(v).len() + 1,
    ensures
        spec_parse_arr_items(s, i, acc, fuel) == Some(
            (JsonV::Arr(acc + quali_row_trees(v)), i + spec_enc_quali_rows(v).len() + 1),
        ),
    decreases v.len(),
{
    let its = spec_enc_quali_rows(v);
    let e0 = spec_encode_quali_row(v[0]);
    lemma_encode_quali_row_len(v[0]);
    lemma_char_at(s, i, its, 0);
    assert(its[0] == e0[0]);
    assert(e0[0] == '{');
    assert(!is_ws('{'));
    assert(spec_skip_ws(s, i) == i);
    lemma_sub_at(s, i, its, 0, e0.len() as int);
    assert(its.subrange(0, e0.len() as int) =~= e0);
    lemma_parse_quali_row(s, i, v[0], (fuel - 1) as nat);
    let after = i + e0.len();
    if v.len() == 1 {
        assert(its == e0);
        assert(s[after] == ']');
        assert(!is_ws(']'));
        assert(spec_skip_ws(s, after) == after);
        assert(quali_row_trees(v.drop_first()) =~= Seq::<JsonV>::empty());
        assert(quali_row_trees(v) =~= seq![quali_row_tree(v[0])]);
        assert(acc.push(quali_row_tree(v[0])) =~= acc + quali_row_trees(v));
    } else {
        let tail = v.drop_first();
        assert(forall|k: int| 0 <= k < tail.len() ==> tail[k] == v[k + 1]);
        let trest = spec_enc_quali_rows(tail);
        assert(its == e0 + seq![','] + trest);
        lemma_char_at(s, i, its, e0.len() as int);
        assert(its[e0.len() as int] == ',');
        assert(s[after] == ',');
        assert(!is_ws(','));
        assert(spec_skip_ws(s, after) == after);
        lemma_sub_at(s, i, its, e0.len() + 1int, its.len() as int);
        assert(its.subrange(e0.len() + 1int, its.len() as int) =~= trest);
        assert(s[after + 1 + trest.len()] == ']') by {
            assert(after + 1 + trest.len() == i + its.len());
        }
        lemma_parse_quali_row_items(s, after + 1, acc.push(quali_row_tree(v[0])), tail, (fuel
            - 1) as nat);
        assert(acc.push(quali_row_tree(v[0])) + quali_row_trees(tail) =~= acc + quali_row_trees(
            v,
        ));
    }
}

/// The cache tree of one completed qualifying weekend.
pub open spec fn quali_tree(r: CompletedQualifyingV) -> JsonV {
    JsonV::Obj(
        seq![
            ("round"@, JsonV::Num(spec_render_usize(r.round))),
            ("gp_name"@, JsonV::Str(r.gp_name)),
            ("results"@, JsonV::Arr(quali_row_trees(r.results))),
        ],
    )
}

/// Is a qualifying record's view within its type's machine bounds?
pub open spec fn wf_quali(r: CompletedQualifyingV) -> bool {
    0 <= r.round <= usize::MAX && (forall|k: int|
        0 <= k < r.results.len() ==> wf_quali_row(#[trigger] r.results[k]))
}

proof fn lemma_enc_quali_rows_len(v: Seq<QualiPositionInfoV>)
    requires
        forall|k: int| 0 <= k < v.len() ==> wf_quali_row(#[trigger] v[k]),
    ensures
        v.len() >= 1 ==> spec_enc_quali_rows(v).len() >= 13 * v.len() - 1,
    decreases v.len(),
{
    if v.len() == 1 {
        lemma_encode_quali_row_len(v[0]);
    } else if v.len() > 1 {
        lemma_encode_quali_row_len(v[0]);
        let tail = v.drop_first();
        assert(forall|k: int| 0 <= k < tail.len() ==> tail[k] == v[k + 1]);
        lemma_enc_quali_rows_len(tail);
    }
}

proof fn lemma_encode_quali_len(r: CompletedQualifyingV)
    requires
        wf_quali(r),
    ensures
        spec_encode_quali(r).len() >= spec_enc_quali_rows(r.results).len() + 13,
        spec_encode_quali(r).len() >= 13,
{
    lemma_render_parse_roundtrip(r.round);
}

/// Reading one encoded qualifying weekend back yields its cache tree.
#[verifier::rlimit(100)]
#[verifier::spinoff_prover]
proof fn lemma_parse_quali(s: Seq<char>, i: int, r: CompletedQualifyingV, fuel: nat)
    requires
        wf_quali(r),
        fuel >= spec_encode_quali(r).len(),
        0 <= i,
        i + spec_encode_quali(r).len() <= s.len(),
        s.subrange(i, i + spec_encode_quali(r).len()) == spec_encode_quali(r),
    ensures
        spec_parse_value(s, i, fuel) == Some((quali_tree(r), i + spec_encode_quali(r).len())),
{
    let enc = spec_encode_quali(r);
    let ek1 = spec_escape("round"@);
    let ek2 = spec_escape("gp_name"@);
    let ek3 = spec_escape("results"@);
    let en = spec_escape(r.gp_name);
    let r1 = spec_render_usize(r.round);
    let rows = spec_enc_quali_rows(r.results);
    lemma_render_parse_roundtrip(r.round);
    lemma_encode_quali_len(r);
    let a1 = 1int;
    let a2 = a1 + ek1.len() + 2;
    let a3 = a2 + 1;
    let a4 = a3 + r1.len();
    let a5 = a4 + 1;
    let a6 = a5 + ek2.len() + 2;
    let a7 = a6 + 1;
    let a8 = a7 + en.len() + 2;
    let a9 = a8 + 1;
    let a10 = a9 + ek3.len() + 2;
    let a11 = a10 + 1;  // '['
    let a12 = a11 + 1 + rows.len();  // ']'
    assert(enc.len() == a12 + 2);
    lemma_char_at(s, i, enc, 0);
    assert(s[i] == '{');
    lemma_char_at(s, i, enc, a1);
    lemma_char_at(s, i, enc, a2 - 1);
    lemma_char_at(s, i, enc, a2);
    lemma_char_at(s, i, enc, a4);
    lemma_char_at(s, i, enc, a5);
    lemma_char_at(s, i, enc, a6 - 1);
    lemma_char_at(s, i, enc, a6);
    lemma_char_at(s, i, enc, a7);
    lemma_char_at(s, i, enc, a8 - 1);
    lemma_char_at(s, i, enc, a8);
    lemma_char_at(s, i, enc, a9);
    lemma_char_at(s, i, enc, a10 - 1);
    lemma_char_at(s, i, enc, a10);
    lemma_char_at(s, i, enc, a11);
    lemma_char_at(s, i, enc, a12);
    lemma_char_at(s, i, enc, a12 + 1);
    assert(s[i + a1] == '"' && s[i + a2 - 1] == '"' && s[i + a2] == ':' && s[i + a4] == ',');
    assert(s[i + a5] == '"' && s[i + a6 - 1] == '"' && s[i + a6] == ':' && s[i + a7] == '"');
    assert(s[i + a8 - 1] == '"' && s[i + a8] == ',');
    assert(s[i + a9] == '"' && s[i + a10 - 1] == '"' && s[i + a10] == ':');
    assert(s[i + a11] == '[' && s[i + a12] == ']' && s[i + a12 + 1] == '}');
    lemma_sub_at(s, i, enc, a1 + 1, a1 + 1 + ek1.len());
    assert(enc.subrange(a1 + 1, a1 + 1 + ek1.len() as int) =~= ek1);
    lemma_parse_string_escaped(s, i + a1 + 1, "round"@);
    lemma_sub_at(s, i, enc, a5 + 1, a5 + 1 + ek2.len());
    assert(enc.subrange(a5 + 1, a5 + 1 + ek2.len() as int) =~= ek2);
    lemma_parse_string_escaped(s, i + a5 + 1, "gp_name"@);
    lemma_sub_at(s, i, enc, a7 + 1, a7 + 1 + en.len());
    assert(enc.subrange(a7 + 1, a7 + 1 + en.len() as int) =~= en);
    lemma_parse_string_escaped(s, i + a7 + 1, r.gp_name);
    lemma_sub_at(s, i, enc, a9 + 1, a9 + 1 + ek3.len());
    assert(enc.subrange(a9 + 1, a9 + 1 + ek3.len() as int) =~= ek3);
    lemma_parse_string_escaped(s, i + a9 + 1, "results"@);
    lemma_sub_at(s, i, enc, a3, a4);
    assert(enc.subrange(a3, a4) =~= r1);
    assert(!is_num_char(',')) by {
        assert(',' as int == 44);
    }
    lemma_parse_value_num(s, i + a3, r.round, (fuel - 2) as nat);
    // the rows array, parsed as one value
    assert(!is_ws('"') && !is_ws(':') && !is_ws(',') && !is_ws('}') && !is_ws('[')
        && !is_ws(']'));
    if r.results.len() == 0 {
        assert(rows =~= Seq::<char>::empty());
        assert(spec_skip_ws(s, i + a11 + 1) == i + a12);
        assert(quali_row_trees(r.results) =~= Seq::<JsonV>::empty());
        assert(spec_parse_value(s, i + a11, (fuel - 4) as nat) == Some(
            (JsonV::Arr(quali_row_trees(r.results)), i + a12 + 1),
        ));
    } else {
        lemma_enc_quali_rows_len(r.results);
        lemma_encode_quali_row_len(r.results[0]);
        lemma_sub_at(s, i, enc, a11 + 1, a11 + 1 + rows.len());
        assert(enc.subrange(a11 + 1, a11 + 1 + rows.len() as int) =~= rows);
        lemma_char_at(s, i, enc, a11 + 1);
        assert(rows[0] == spec_encode_quali_row(r.results[0])[0]);
        assert(s[i + a11 + 1] == '{');
        assert(spec_skip_ws(s, i + a11 + 1) == i + a11 + 1);
        lemma_parse_quali_row_items(s, i + a11 + 1, Seq::<JsonV>::empty(), r.results, (fuel
            - 5) as nat);
        assert(Seq::<JsonV>::empty() + quali_row_trees(r.results) =~= quali_row_trees(r.results));
        assert(spec_parse_value(s, i + a11, (fuel - 4) as nat) == Some(
            (JsonV::Arr(quali_row_trees(r.results)), i + a12 + 1),
        ));
    }
    lemma_char_at(s, i, enc, a3);
    assert(is_digit_char(r1[0]));
    assert(!is_ws(s[i + a3]));
    assert(spec_skip_ws(s, i + a1) == i + a1);
    assert(spec_skip_ws(s, i + a2 + 1) == i + a3);
    assert(spec_skip_ws(s, i + a4) == i + a4);
    assert(spec_skip_ws(s, i + a5) == i + a5);
    assert(spec_skip_ws(s, i + a6 + 1) == i + a7);
    assert(spec_skip_ws(s, i + a8) == i + a8);
    assert(spec_skip_ws(s, i + a9) == i + a9);
    assert(spec_skip_ws(s, i + a10 + 1) == i + a11);
    assert(spec_skip_ws(s, i + a12 + 1) == i + a12 + 1);
    let f1 = ("round"@, JsonV::Num(r1));
    let f2 = ("gp_name"@, JsonV::Str(r.gp_name));
    let f3 = ("results"@, JsonV::Arr(quali_row_trees(r.results)));
    let acc0 = Seq::<(Seq<char>, JsonV)>::empty();
    assert(spec_parse_obj_items(s, i + a9, acc0.push(f1).push(f2), (fuel - 3) as nat) == Some(
        (JsonV::Obj(acc0.push(f1).push(f2).push(f3)), i + a12 + 2),
    ));
    assert(spec_parse_value(s, i + a7, (fuel - 3) as nat) == Some(
        (JsonV::Str(r.gp_name), i + a8),
    ));
    assert(spec_parse_obj_items(s, i + a5, acc0.push(f1), (fuel - 2) as nat) == Some(
        (JsonV::Obj(acc0.push(f1).push(f2).push(f3)), i + a12 + 2),
    ));
    assert(spec_parse_value(s, i + a3, (fuel - 2) as nat) == Some((JsonV::Num(r1), i + a4)));
    assert(spec_parse_obj_items(s, i + a1, acc0, (fuel - 1) as nat) == Some(
        (JsonV::Obj(acc0.push(f1).push(f2).push(f3)), i + a12 + 2),
    ));
    assert(acc0.push(f1).push(f2).push(f3) =~= seq![f1, f2, f3]);
    assert(s[i + a1] != '}');
    assert(spec_skip_ws(s, i + 1) == i + 1);
    assert(spec_parse_value(s, i, fuel) == Some((quali_tree(r), i + a12 + 2)));
}

/// The cache trees of a qualifying collection, in order.
pub open spec fn quali_trees(v: Seq<CompletedQualifyingV>) -> Seq<JsonV>
    decreases v.len(),
{
    if v.len() == 0 {
        Seq::empty()
    } else {
        seq![quali_tree(v[0])] + quali_trees(v.drop_first())
    }
}

/// Reading the encoded records of a non-empty qualifying collection back
/// yields their trees.
#[verifier::rlimit(100)]
#[verifier::spinoff_prover]
proof fn lemma_parse_quali_items(
    s: Seq<char>,
    i: int,
    acc: Seq<JsonV>,
    v: Seq<CompletedQualifyingV>,
    fuel: nat,
)
    requires
        v.len() >= 1,
        forall|k: int| 0 <= k < v.len() ==> wf_quali(#[trigger] v[k]),
        0 <= i,
        i + spec_enc_quali_items(v).len() + 1 <= s.len(),
        s.subrange(i, i + spec_enc_quali_items(v).len()) == spec_enc_quali_items(v),
        s[i + spec_enc_quali_items(v).len()] == ']',
        fuel >= spec_enc_quali_items(v).len() + 1,
    ensures
        spec_parse_arr_items(s, i, acc, fuel) == Some(
            (JsonV::Arr(acc + quali_trees(v)), i + spec_enc_quali_items(v).len() + 1),
        ),
    decreases v.len(),
{
    let its = spec_enc_quali_items(v);
    let e0 = spec_encode_quali(v[0]);
    lemma_encode_quali_len(v[0]);
    lemma_char_at(s, i, its, 0);
    assert(its[0] == e0[0]);
    assert(e0[0] == '{');
    assert(!is_ws('{'));
    assert(spec_skip_ws(s, i) == i);
    lemma_sub_at(s, i, its, 0, e0.len() as int);
    assert(its.subrange(0, e0.len() as int) =~= e0);
    lemma_parse_quali(s, i, v[0], (fuel - 1) as nat);
    let after = i + e0.len();
    if v.len() == 1 {
        assert(its == e0);
        assert(s[after] == ']');
        assert(!is_ws(']'));
        assert(spec_skip_ws(s, after) == after);
        assert(quali_trees(v.drop_first()) =~= Seq::<JsonV>::empty());
        assert(quali_trees(v) =~= seq![quali_tree(v[0])]);
        assert(acc.push(quali_tree(v[0])) =~= acc + quali_trees(v));
    } else {
        let tail = v.drop_first();
        assert(forall|k: int| 0 <= k < tail.len() ==> tail[k] == v[k + 1]);
        let trest = spec_enc_quali_items(tail);
        assert(its == e0 + seq![','] + trest);
        lemma_char_at(s, i, its, e0.len() as int);
        assert(its[e0.len() as int] == ',');
        assert(s[after] == ',');
        assert(!is_ws(','));
        assert(spec_skip_ws(s, after) == after);
        lemma_sub_at(s, i, its, e0.len() + 1int, its.len() as int);
        assert(its.subrange(e0.len() + 1int, its.len() as int) =~= trest);
        assert(s[after + 1 + trest.len()] == ']') by {
            assert(after + 1 + trest.len() == i + its.len());
        }
        lemma_parse_quali_items(s, after + 1, acc.push(quali_tree(v[0])), tail, (fuel - 1) as nat);
        assert(acc.push(quali_tree(v[0])) + quali_trees(tail) =~= acc + quali_trees(v));
    }
}

/// One cache tree reads back to the qualifying row it encodes.
proof fn lemma_quali_row_from_tree(p: QualiPositionInfoV)
    requires
        wf_quali_row(p),
    ensures
        spec_quali_row_from_json(quali_row_tree(p)) == Some(p),
{
    reveal_strlit("position");
    reveal_strlit("name");
    reveal_strlit("q1");
    reveal_strlit("q2");
    reveal_strlit("q3");
    let f1 = ("position"@, JsonV::Num(spec_render_usize(p.position)));
    let f2 = ("name"@, JsonV::Str(p.name));
    let f3 = ("q1"@, opt_time_tree(p.q1));
    let f4 = ("q2"@, opt_time_tree(p.q2));
    let f5 = ("q3"@, opt_time_tree(p.q3));
    let fields = seq![f1, f2, f3, f4, f5];
    assert("position"@.len() == 8 && "name"@.len() == 4);
    assert("q1"@.len() == 2 && "q2"@.len() == 2 && "q3"@.len() == 2);
    assert("q1"@[1] == '1' && "q2"@[1] == '2' && "q3"@[1] == '3');
    assert("q1"@ != "q2"@) by {
        if "q1"@ == "q2"@ {
            assert("q1"@[1] == "q2"@[1]);
        }
    }
    assert("q1"@ != "q3"@) by {
        if "q1"@ == "q3"@ {
            assert("q1"@[1] == "q3"@[1]);
        }
    }
    assert("q2"@ != "q3"@) by {
        if "q2"@ == "q3"@ {
            assert("q2"@[1] == "q3"@[1]);
        }
    }
    assert(fields.drop_first() =~= seq![f2, f3, f4, f5]);
    assert(seq![f2, f3, f4, f5].drop_first() =~= seq![f3, f4, f5]);
    assert(seq![f3, f4, f5].drop_first() =~= seq![f4, f5]);
    assert(seq![f4, f5].drop_first() =~= seq![f5]);
    assert(spec_lookup(fields, "position"@) == Some(f1.1));
    assert(spec_lookup(seq![f2, f3, f4, f5], "name"@) == Some(f2.1));
    assert(spec_lookup(fields, "name"@) == Some(f2.1));
    assert(spec_lookup(seq![f3, f4, f5], "q1"@) == Some(f3.1));
    assert(spec_lookup(seq![f2, f3, f4, f5], "q1"@) == Some(f3.1));
    assert(spec_lookup(fields, "q1"@) == Some(f3.1));
    assert(spec_lookup(seq![f4, f5], "q2"@) == Some(f4.1));
    assert(spec_lookup(seq![f3, f4, f5], "q2"@) == Some(f4.1));
    assert(spec_lookup(seq![f2, f3, f4, f5], "q2"@) == Some(f4.1));
    assert(spec_lookup(fields, "q2"@) == Some(f4.1));
    assert(spec_lookup(seq![f5], "q3"@) == Some(f5.1));
    assert(spec_lookup(seq![f4, f5], "q3"@) == Some(f5.1));
    assert(spec_lookup(seq![f3, f4, f5], "q3"@) == Some(f5.1));
    assert(spec_lookup(seq![f2, f3, f4, f5], "q3"@) == Some(f5.1));
    assert(spec_lookup(fields, "q3"@) == Some(f5.1));
    lemma_render_parse_roundtrip(p.position);
    assert(spec_opt_time_from_json(opt_time_tree(p.q1)) == Some(p.q1));
    assert(spec_opt_time_from_json(opt_time_tree(p.q2)) == Some(p.q2));
    assert(spec_opt_time_from_json(opt_time_tree(p.q3)) == Some(p.q3));
}

proof fn lemma_quali_rows_from_trees(v: Seq<QualiPositionInfoV>)
    requires
        forall|k: int| 0 <= k < v.len() ==> wf_quali_row(#[trigger] v[k]),
    ensures
        spec_quali_rows_from_items(quali_row_trees(v)) == Some(v),
    decreases v.len(),
{
    if v.len() == 0 {
        assert(quali_row_trees(v) =~= Seq::<JsonV>::empty());
        assert(Seq::<QualiPositionInfoV>::empty() =~= v);
    } else {
        let tail = v.drop_first();
        assert(forall|k: int| 0 <= k < tail.len() ==> tail[k] == v[k + 1]);
        lemma_quali_row_from_tree(v[0]);
        lemma_quali_rows_from_trees(tail);
        let ts = quali_row_trees(v);
        assert(ts[0] == quali_row_tree(v[0]));
        assert(ts.drop_first() =~= quali_row_trees(tail));
        assert(seq![v[0]] + tail =~= v);
    }
}

/// One cache tree reads back to the qualifying weekend it encodes.
proof fn lemma_quali_from_tree(r: CompletedQualifyingV)
    requires
        wf_quali(r),
    ensures
        spec_quali_from_json(quali_tree(r)) == Some(r),
{
    reveal_strlit("round");
    reveal_strlit("gp_name");
    reveal_strlit("results");
    let f1 = ("round"@, JsonV::Num(spec_render_usize(r.round)));
    let f2 = ("gp_name"@, JsonV::Str(r.gp_name));
    let f3 = ("results"@, JsonV::Arr(quali_row_trees(r.results)));
    let fields = seq![f1, f2, f3];
    assert("round"@.len() == 5 && "gp_name"@.len() == 7 && "results"@.len() == 7);
    assert("gp_name"@[0] == 'g' && "results"@[0] == 'r');
    assert("gp_name"@ != "results"@) by {
        if "gp_name"@ == "results"@ {
            assert("gp_name"@[0] == "results"@[0]);
        }
    }
    assert(fields.drop_first() =~= seq![f2, f3]);
    assert(seq![f2, f3].drop_first() =~= seq![f3]);
    assert(spec_lookup(fields, "round"@) == Some(f1.1));
    assert(spec_lookup(seq![f3], "results"@) == Some(f3.1));
    assert(spec_lookup(seq![f2, f3], "gp_name"@) == Some(f2.1));
    assert(spec_lookup(seq![f2, f3], "results"@) == Some(f3.1));
    assert(spec_lookup(fields, "gp_name"@) == Some(f2.1));
    assert(spec_lookup(fields, "results"@) == Some(f3.1));
    lemma_render_parse_roundtrip(r.round);
    lemma_quali_rows_from_trees(r.results);
}

proof fn lemma_qualis_from_trees(v: Seq<CompletedQualifyingV>)
    requires
        forall|k: int| 0 <= k < v.len() ==> wf_quali(#[trigger] v[k]),
    ensures
        spec_qualis_from_items(quali_trees(v)) == Some(v),
    decreases v.len(),
{
    if v.len() == 0 {
        assert(quali_trees(v) =~= Seq::<JsonV>::empty());
        assert(Seq::<CompletedQualifyingV>::empty() =~= v);
    } else {
        let tail = v.drop_first();
        assert(forall|k: int| 0 <= k < tail.len() ==> tail[k] == v[k + 1]);
        lemma_quali_from_tree(v[0]);
        lemma_qualis_from_trees(tail);
        let ts = quali_trees(v);
        assert(ts[0] == quali_tree(v[0]));
        assert(ts.drop_first() =~= quali_trees(tail));
        assert(seq![v[0]] + tail =~= v);
    }
}

/// Writing a qualifying collection to cache and reading it back yields
/// the same collection, record for record.
#[verifier::rlimit(100)]
pub proof fn lemma_cache_roundtrip_qualis(v: Seq<CompletedQualifyingV>)
    requires
        forall|k: int| 0 <= k < v.len() ==> wf_quali(#[trigger] v[k]),
    ensures
        spec_decode_qualis(spec_encode_qualis(v)) == Ok::<Seq<CompletedQualifyingV>, Error>(v),
{
    let s = spec_encode_qualis(v);
    let its = spec_enc_quali_items(v);
    assert(s == seq!['['] + its + seq![']']);
    assert(s[0] == '[');
    assert(!is_ws('['));
    assert(spec_skip_ws(s, 0) == 0);
    if v.len() == 0 {
        assert(its =~= Seq::<char>::empty());
        assert(s.len() == 2 && s[1] == ']');
        assert(!is_ws(']'));
        assert(spec_skip_ws(s, 1) == 1);
        assert(spec_parse_value(s, 0, s.len()) == Some((JsonV::Arr(Seq::<JsonV>::empty()), 2int)));
        assert(spec_skip_ws(s, 2) == 2);
        assert(spec_parse_json(s) == Some(JsonV::Arr(Seq::<JsonV>::empty())));
        assert(spec_qualis_from_items(Seq::<JsonV>::empty()) == Some(
            Seq::<CompletedQualifyingV>::empty(),
        ));
        assert(spec_qualis_from_json(JsonV::Arr(Seq::<JsonV>::empty())) == Some(
            Seq::<CompletedQualifyingV>::empty(),
        ));
        assert(Seq::<CompletedQualifyingV>::empty() =~= v);
    } else {
        assert(s.len() == its.len() + 2);
        assert(s.subrange(1, 1 + its.len() as int) =~= its);
        assert(s[1 + its.len() as int] == ']');
        lemma_encode_quali_len(v[0]);
        assert(its[0] == spec_encode_quali(v[0])[0]);
        assert(its[0] == '{');
        assert(s[1] == its[0]) by {
            assert(s.subrange(1, 1 + its.len() as int)[0] == its[0]);
        }
        assert(!is_ws('{') && s[1] != ']');
        assert(spec_skip_ws(s, 1) == 1);
        lemma_parse_quali_items(s, 1, Seq::<JsonV>::empty(), v, (s.len() - 1) as nat);
        assert(spec_parse_value(s, 0, s.len()) == Some(
            (JsonV::Arr(Seq::<JsonV>::empty() + quali_trees(v)), s.len() as int),
        ));
        assert(spec_skip_ws(s, s.len() as int) == s.len());
        assert(Seq::<JsonV>::empty() + quali_trees(v) =~= quali_trees(v));
        lemma_qualis_from_trees(v);
    }
}


/// Reading a rendered signed number back yields exactly its span.
proof fn lemma_parse_value_num_i64(s: Seq<char>, i: int, n: int, fuel: nat)
    requires
        fuel >= 1,
        i64::MIN <= n <= i64::MAX,
        0 <= i,
        i + spec_render_i64(n).len() <= s.len(),
        s.subrange(i, i + spec_render_i64(n).len()) == spec_render_i64(n),
        i + spec_render_i64(n).len() == s.len() || !is_num_char(s[i + spec_render_i64(n).len()]),
    ensures
        spec_parse_value(s, i, fuel) == Some(
            (JsonV::Num(spec_render_i64(n)), i + spec_render_i64(n).len()),
        ),
        spec_render_i64(n).len() >= 1,
        !is_ws(spec_render_i64(n)[0]),
{
    let d = spec_render_i64(n);
    if n < 0 {
        lemma_render_digits(-n);
        assert(d == seq!['-'] + spec_render_usize(-n));
        assert(d[0] == '-');
        assert(is_num_char('-')) by {
            assert('-' as int == 45);
        }
        assert forall|k: int| i <= k < i + d.len() implies is_num_char(#[trigger] s[k]) by {
            assert(s.subrange(i, i + d.len())[k - i] == d[k - i]);
            if k > i {
                assert(is_digit_char(spec_render_usize(-n)[k - i - 1]));
            }
        }
    } else {
        lemma_render_digits(n);
        assert(d == spec_render_usize(n));
        assert(is_digit_char(d[0]));
        assert forall|k: int| i <= k < i + d.len() implies is_num_char(#[trigger] s[k]) by {
            assert(s.subrange(i, i + d.len())[k - i] == d[k - i]);
            assert(is_digit_char(d[k - i]));
        }
    }
    lemma_char_at(s, i, d, 0);
    assert(s[i] == d[0]);
    assert(45 <= s[i] as int <= 57);
    assert(s[i] != 'n') by {
        assert('n' as int == 110);
    }
    assert(s[i] != 't') by {
        assert('t' as int == 116);
    }
    assert(s[i] != 'f') by {
        assert('f' as int == 102);
    }
    assert(s[i] != '"') by {
        assert('"' as int == 34);
    }
    assert(s[i] != '[') by {
        assert('[' as int == 91);
    }
    assert(s[i] != '{') by {
        assert('{' as int == 123);
    }
    assert(is_num_char(s[i]));
    lemma_num_end_at(s, i, i + d.len());
    assert(s.subrange(i, i + d.len()) == d);
    assert(!is_ws(d[0]));
}

/// The cache fields of a run of numeric sessions, keyed in order.
pub open spec fn num_field_pairs(keys: Seq<Seq<char>>, vals: Seq<int>) -> Seq<(Seq<char>, JsonV)>
    decreases keys.len(),
{
    if keys.len() == 0 || vals.len() != keys.len() {
        Seq::empty()
    } else {
        seq![(keys[0], JsonV::Num(spec_render_i64(vals[0])))] + num_field_pairs(
            keys.drop_first(),
            vals.drop_first(),
        )
    }
}

/// The cache text of a run of numeric fields, up to and including the
/// closing brace.
pub open spec fn spec_enc_num_fields(keys: Seq<Seq<char>>, vals: Seq<int>) -> Seq<char>
    decreases keys.len(),
{
    if keys.len() == 0 || vals.len() != keys.len() {
        seq!['}']
    } else if keys.len() == 1 {
        spec_quoted(keys[0]) + seq![':'] + spec_render_i64(vals[0]) + seq!['}']
    } else {
        spec_quoted(keys[0]) + seq![':'] + spec_render_i64(vals[0]) + seq![',']
            + spec_enc_num_fields(keys.drop_first(), vals.drop_first())
    }
}

/// Reading a run of encoded numeric fields back closes the object with
/// their pairs appended.
#[verifier::rlimit(100)]
proof fn lemma_parse_num_fields(
    s: Seq<char>,
    j: int,
    keys: Seq<Seq<char>>,
    vals: Seq<int>,
    acc: Seq<(Seq<char>, JsonV)>,
    fuel: nat,
)
    requires
        keys.len() >= 1,
        vals.len() == keys.len(),
        forall|k: int| 0 <= k < vals.len() ==> i64::MIN <= #[trigger] vals[k] <= i64::MAX,
        fuel >= keys.len() + 1,
        0 <= j,
        j + spec_enc_num_fields(keys, vals).len() <= s.len(),
        s.subrange(j, j + spec_enc_num_fields(keys, vals).len()) == spec_enc_num_fields(keys, vals),
    ensures
        spec_parse_obj_items(s, j, acc, fuel) == Some(
            (
                JsonV::Obj(acc + num_field_pairs(keys, vals)),
                j + spec_enc_num_fields(keys, vals).len(),
            ),
        ),
    decreases keys.len(),
{
    let enc = spec_enc_num_fields(keys, vals);
    let ek = spec_escape(keys[0]);
    let r0 = spec_render_i64(vals[0]);
    let c2 = ek.len() + 2int;  // ':' after the key
    let c3 = c2 + 1;  // the number
    let c4 = c3 + r0.len();  // ',' or the closing brace
    lemma_char_at(s, j, enc, 0);
    lemma_char_at(s, j, enc, c2 - 1);
    lemma_char_at(s, j, enc, c2);
    lemma_char_at(s, j, enc, c4);
    assert(s[j] == '"' && s[j + c2 - 1] == '"' && s[j + c2] == ':');
    lemma_sub_at(s, j, enc, 1, 1 + ek.len() as int);
    assert(enc.subrange(1, 1 + ek.len() as int) =~= ek);
    lemma_parse_string_escaped(s, j + 1, keys[0]);
    lemma_sub_at(s, j, enc, c3, c4);
    assert(enc.subrange(c3, c4) =~= r0);
    assert(!is_num_char(',')) by {
        assert(',' as int == 44);
    }
    assert(!is_num_char('}')) by {
        assert('}' as int == 125);
    }
    if keys.len() == 1 {
        assert(s[j + c4] == '}');
    } else {
        assert(s[j + c4] == ',');
    }
    lemma_parse_value_num_i64(s, j + c3, vals[0], (fuel - 1) as nat);
    assert(!is_ws('"') && !is_ws(':') && !is_ws(',') && !is_ws('}'));
    lemma_char_at(s, j, enc, c3);
    assert(s[j + c3] == r0[0]);
    assert(spec_skip_ws(s, j) == j);
    assert(spec_skip_ws(s, j + c2 + 1) == j + c3);
    assert(spec_skip_ws(s, j + c4) == j + c4);
    let pair0 = (keys[0], JsonV::Num(r0));
    if keys.len() == 1 {
        assert(num_field_pairs(keys.drop_first(), vals.drop_first()) =~= Seq::<(
            Seq<char>,
            JsonV,
        )>::empty());
        assert(num_field_pairs(keys, vals) =~= seq![pair0]);
        assert(acc.push(pair0) =~= acc + num_field_pairs(keys, vals));
        assert(spec_parse_obj_items(s, j, acc, fuel) == Some(
            (JsonV::Obj(acc.push(pair0)), j + c4 + 1),
        ));
    } else {
        let kt = keys.drop_first();
        let vt = vals.drop_first();
        assert(forall|k: int| 0 <= k < vt.len() ==> vt[k] == vals[k + 1]);
        let rest = spec_enc_num_fields(kt, vt);
        assert(enc == spec_quoted(keys[0]) + seq![':'] + r0 + seq![','] + rest);
        lemma_sub_at(s, j, enc, c4 + 1, enc.len() as int);
        assert(enc.subrange(c4 + 1, enc.len() as int) =~= rest);
        lemma_parse_num_fields(s, j + c4 + 1, kt, vt, acc.push(pair0), (fuel - 1) as nat);
        assert(acc.push(pair0) + num_field_pairs(kt, vt) =~= acc + num_field_pairs(keys, vals));
        assert(j + c4 + 1 + rest.len() == j + enc.len());
    }
}

/// The cache keys of a weekend's sessions, in encoded order.
pub open spec fn sessions_keys(ss: Sessions) -> Seq<Seq<char>> {
    match ss {
        Sessions::Normal(_) => seq!["fp1"@, "fp2"@, "fp3"@, "qualifying"@, "gp"@],
        Sessions::Sprint(_) => seq![
            "fp1"@,
            "sprintQualifying"@,
            "sprint"@,
            "qualifying"@,
            "gp"@,
        ],
    }
}

/// The epoch values of a weekend's sessions, in encoded order.
pub open spec fn sessions_vals(ss: Sessions) -> Seq<int> {
    match ss {
        Sessions::Normal(w) => seq![
            w.fp1 as int,
            w.fp2 as int,
            w.fp3 as int,
            w.qualifying as int,
            w.gp as int,
        ],
        Sessions::Sprint(w) => seq![
            w.fp1 as int,
            w.sprint_qualifying as int,
            w.sprint as int,
            w.qualifying as int,
            w.gp as int,
        ],
    }
}

/// The cache tree of a weekend's sessions.
pub open spec fn sessions_tree(ss: Sessions) -> JsonV {
    JsonV::Obj(num_field_pairs(sessions_keys(ss), sessions_vals(ss)))
}

#[verifier::rlimit(100)]
#[verifier::spinoff_prover]
proof fn lemma_encode_sessions_chain(ss: Sessions)
    ensures
        spec_enc_num_fields(sessions_keys(ss), sessions_vals(ss)) == spec_quoted(
            sessions_keys(ss)[0],
        ) + seq![':'] + spec_render_i64(sessions_vals(ss)[0]) + seq![','] + spec_quoted(
            sessions_keys(ss)[1],
        ) + seq![':'] + spec_render_i64(sessions_vals(ss)[1]) + seq![','] + spec_quoted(
            sessions_keys(ss)[2],
        ) + seq![':'] + spec_render_i64(sessions_vals(ss)[2]) + seq![','] + spec_quoted(
            sessions_keys(ss)[3],
        ) + seq![':'] + spec_render_i64(sessions_vals(ss)[3]) + seq![','] + spec_quoted(
            sessions_keys(ss)[4],
        ) + seq![':'] + spec_render_i64(sessions_vals(ss)[4]) + seq!['}'],
{
    let keys = sessions_keys(ss);
    let vals = sessions_vals(ss);
    let k5 = keys.subrange(4, 5);
    let v5 = vals.subrange(4, 5);
    let k4 = keys.subrange(3, 5);
    let v4 = vals.subrange(3, 5);
    let k3 = keys.subrange(2, 5);
    let v3 = vals.subrange(2, 5);
    let k2 = keys.subrange(1, 5);
    let v2 = vals.subrange(1, 5);
    assert(k4.drop_first() =~= k5 && v4.drop_first() =~= v5);
    assert(k3.drop_first() =~= k4 && v3.drop_first() =~= v4);
    assert(k2.drop_first() =~= k3 && v2.drop_first() =~= v3);
    assert(keys.drop_first() =~= k2 && vals.drop_first() =~= v2);
    assert(spec_enc_num_fields(k5, v5) == spec_quoted(keys[4]) + seq![':'] + spec_render_i64(
        vals[4],
    ) + seq!['}']);
    assert(spec_enc_num_fields(k4, v4) == spec_quoted(keys[3]) + seq![':'] + spec_render_i64(
        vals[3],
    ) + seq![','] + spec_enc_num_fields(k5, v5));
    assert(spec_enc_num_fields(k3, v3) == spec_quoted(keys[2]) + seq![':'] + spec_render_i64(
        vals[2],
    ) + seq![','] + spec_enc_num_fields(k4, v4));
    assert(spec_enc_num_fields(k2, v2) == spec_quoted(keys[1]) + seq![':'] + spec_render_i64(
        vals[1],
    ) + seq![','] + spec_enc_num_fields(k3, v3));
    assert(spec_enc_num_fields(keys, vals) == spec_quoted(keys[0]) + seq![':'] + spec_render_i64(
        vals[0],
    ) + seq![','] + spec_enc_num_fields(k2, v2));
    assert(spec_enc_num_fields(keys, vals) =~= spec_quoted(keys[0]) + seq![':'] + spec_render_i64(
        vals[0],
    ) + seq![','] + spec_quoted(keys[1]) + seq![':'] + spec_render_i64(vals[1]) + seq![',']
        + spec_quoted(keys[2]) + seq![':'] + spec_render_i64(vals[2]) + seq![','] + spec_quoted(
        keys[3],
    ) + seq![':'] + spec_render_i64(vals[3]) + seq![','] + spec_quoted(keys[4]) + seq![':']
        + spec_render_i64(vals[4]) + seq!['}']);
}

#[verifier::rlimit(100)]
#[verifier::spinoff_prover]
proof fn lemma_encode_sessions_shape(ss: Sessions)
    ensures
        spec_encode_sessions(ss) == seq!['{'] + spec_enc_num_fields(
            sessions_keys(ss),
            sessions_vals(ss),
        ),
        spec_encode_sessions(ss).len() >= 2,
        spec_encode_sessions(ss)[0] == '{',
{
    lemma_encode_sessions_chain(ss);
    match ss {
        Sessions::Normal(w) => {
            assert(spec_encode_sessions(ss) =~= seq!['{'] + spec_enc_num_fields(
                sessions_keys(ss),
                sessions_vals(ss),
            ));
        },
        Sessions::Sprint(w) => {
            assert(spec_encode_sessions(ss) =~= seq!['{'] + spec_enc_num_fields(
                sessions_keys(ss),
                sessions_vals(ss),
            ));
        },
    }
}

/// Reading an encoded sessions object back yields its cache tree.
proof fn lemma_parse_sessions(s: Seq<char>, i: int, ss: Sessions, fuel: nat)
    requires
        fuel >= 7,
        0 <= i,
        i + spec_encode_sessions(ss).len() <= s.len(),
        s.subrange(i, i + spec_encode_sessions(ss).len()) == spec_encode_sessions(ss),
    ensures
        spec_parse_value(s, i, fuel) == Some(
            (sessions_tree(ss), i + spec_encode_sessions(ss).len()),
        ),
{
    let enc = spec_encode_sessions(ss);
    let keys = sessions_keys(ss);
    let vals = sessions_vals(ss);
    lemma_encode_sessions_shape(ss);
    let body = spec_enc_num_fields(keys, vals);
    lemma_char_at(s, i, enc, 0);
    assert(s[i] == '{');
    lemma_char_at(s, i, enc, 1);
    assert(enc[1] == body[0]);
    assert(body[0] == '"');
    assert(s[i + 1] == '"');
    assert(!is_ws('"') && s[i + 1] != '}');
    assert(spec_skip_ws(s, i + 1) == i + 1);
    lemma_sub_at(s, i, enc, 1, enc.len() as int);
    assert(enc.subrange(1, enc.len() as int) =~= body);
    lemma_parse_num_fields(s, i + 1, keys, vals, Seq::<(Seq<char>, JsonV)>::empty(), (fuel
        - 1) as nat);
    assert(Seq::<(Seq<char>, JsonV)>::empty() + num_field_pairs(keys, vals) =~= num_field_pairs(
        keys,
        vals,
    ));
    assert(spec_parse_value(s, i, fuel) == Some((sessions_tree(ss), i + enc.len())));
}

proof fn lemma_session_keys_distinct()
    ensures
        "fp1"@.len() == 3 && "fp2"@.len() == 3 && "fp3"@.len() == 3,
        "sprintQualifying"@.len() == 16 && "sprint"@.len() == 6,
        "qualifying"@.len() == 10 && "gp"@.len() == 2,
        "fp1"@ != "fp2"@ && "fp1"@ != "fp3"@ && "fp2"@ != "fp3"@,
{
    reveal_strlit("fp1");
    reveal_strlit("fp2");
    reveal_strlit("fp3");
    reveal_strlit("sprintQualifying");
    reveal_strlit("sprint");
    reveal_strlit("qualifying");
    reveal_strlit("gp");
    assert("fp1"@[2] == '1' && "fp2"@[2] == '2' && "fp3"@[2] == '3');
    assert("fp1"@ != "fp2"@) by {
        if "fp1"@ == "fp2"@ {
            assert("fp1"@[2] == "fp2"@[2]);
        }
    }
    assert("fp1"@ != "fp3"@) by {
        if "fp1"@ == "fp3"@ {
            assert("fp1"@[2] == "fp3"@[2]);
        }
    }
    assert("fp2"@ != "fp3"@) by {
        if "fp2"@ == "fp3"@ {
            assert("fp2"@[2] == "fp3"@[2]);
        }
    }
}

#[verifier::rlimit(100)]
#[verifier::spinoff_prover]
proof fn lemma_sessions_from_tree_normal(w: NormalWeekend)
    ensures
        spec_sessions_from_cache(sessions_tree(Sessions::Normal(w))) == Some(Sessions::Normal(w)),
{
    let ss = Sessions::Normal(w);
    lemma_session_keys_distinct();
    reveal_with_fuel(num_field_pairs, 7);
    let keys = sessions_keys(ss);
    let vals = sessions_vals(ss);
    assert(keys.drop_first() =~= keys.subrange(1, 5));
    assert(keys.subrange(1, 5).drop_first() =~= keys.subrange(2, 5));
    assert(keys.subrange(2, 5).drop_first() =~= keys.subrange(3, 5));
    assert(keys.subrange(3, 5).drop_first() =~= keys.subrange(4, 5));
    assert(vals.drop_first() =~= vals.subrange(1, 5));
    assert(vals.subrange(1, 5).drop_first() =~= vals.subrange(2, 5));
    assert(vals.subrange(2, 5).drop_first() =~= vals.subrange(3, 5));
    assert(vals.subrange(3, 5).drop_first() =~= vals.subrange(4, 5));
    let p1 = (keys[0], JsonV::Num(spec_render_i64(vals[0])));
    let p2 = (keys[1], JsonV::Num(spec_render_i64(vals[1])));
    let p3 = (keys[2], JsonV::Num(spec_render_i64(vals[2])));
    let p4 = (keys[3], JsonV::Num(spec_render_i64(vals[3])));
    let p5 = (keys[4], JsonV::Num(spec_render_i64(vals[4])));
    let fields = num_field_pairs(keys, vals);
    assert(fields =~= seq![p1, p2, p3, p4, p5]);
    assert(seq![p1, p2, p3, p4, p5].drop_first() =~= seq![p2, p3, p4, p5]);
    assert(seq![p2, p3, p4, p5].drop_first() =~= seq![p3, p4, p5]);
    assert(seq![p3, p4, p5].drop_first() =~= seq![p4, p5]);
    assert(seq![p4, p5].drop_first() =~= seq![p5]);
    lemma_render_parse_i64_roundtrip(vals[0]);
    lemma_render_parse_i64_roundtrip(vals[1]);
    lemma_render_parse_i64_roundtrip(vals[2]);
    lemma_render_parse_i64_roundtrip(vals[3]);
    lemma_render_parse_i64_roundtrip(vals[4]);
    assert(spec_lookup(seq![p5], "gp"@) == Some(p5.1));
    assert(spec_lookup(seq![p4, p5], "gp"@) == Some(p5.1));
    assert(spec_lookup(seq![p3, p4, p5], "gp"@) == Some(p5.1));
    assert(spec_lookup(seq![p2, p3, p4, p5], "gp"@) == Some(p5.1));
    assert(spec_lookup(fields, "gp"@) == Some(p5.1));
    assert(spec_lookup(seq![p4, p5], "qualifying"@) == Some(p4.1));
    assert(spec_lookup(seq![p3, p4, p5], "qualifying"@) == Some(p4.1));
    assert(spec_lookup(seq![p2, p3, p4, p5], "qualifying"@) == Some(p4.1));
    assert(spec_lookup(fields, "qualifying"@) == Some(p4.1));
    assert(spec_lookup(seq![p3, p4, p5], "fp3"@) == Some(p3.1));
    assert(spec_lookup(seq![p2, p3, p4, p5], "fp3"@) == Some(p3.1));
    assert(spec_lookup(fields, "fp3"@) == Some(p3.1));
    assert(spec_lookup(seq![p2, p3, p4, p5], "fp2"@) == Some(p2.1));
    assert(spec_lookup(fields, "fp2"@) == Some(p2.1));
    assert(spec_lookup(fields, "fp1"@) == Some(p1.1));
    assert(spec_cached_session(fields, "fp1"@) == Some(w.fp1));
    assert(spec_cached_session(fields, "fp2"@) == Some(w.fp2));
    assert(spec_cached_session(fields, "fp3"@) == Some(w.fp3));
    assert(spec_cached_session(fields, "qualifying"@) == Some(w.qualifying));
    assert(spec_cached_session(fields, "gp"@) == Some(w.gp));
}

#[verifier::rlimit(100)]
#[verifier::spinoff_prover]
proof fn lemma_sessions_from_tree_sprint(w: SprintWeekend)
    ensures
        spec_sessions_from_cache(sessions_tree(Sessions::Sprint(w))) == Some(Sessions::Sprint(w)),
{
    let ss = Sessions::Sprint(w);
    lemma_session_keys_distinct();
    reveal_with_fuel(num_field_pairs, 7);
    let keys = sessions_keys(ss);
    let vals = sessions_vals(ss);
    assert(keys.drop_first() =~= keys.subrange(1, 5));
    assert(keys.subrange(1, 5).drop_first() =~= keys.subrange(2, 5));
    assert(keys.subrange(2, 5).drop_first() =~= keys.subrange(3, 5));
    assert(keys.subrange(3, 5).drop_first() =~= keys.subrange(4, 5));
    assert(vals.drop_first() =~= vals.subrange(1, 5));
    assert(vals.subrange(1, 5).drop_first() =~= vals.subrange(2, 5));
    assert(vals.subrange(2, 5).drop_first() =~= vals.subrange(3, 5));
    assert(vals.subrange(3, 5).drop_first() =~= vals.subrange(4, 5));
    let p1 = (keys[0], JsonV::Num(spec_render_i64(vals[0])));
    let p2 = (keys[1], JsonV::Num(spec_render_i64(vals[1])));
    let p3 = (keys[2], JsonV::Num(spec_render_i64(vals[2])));
    let p4 = (keys[3], JsonV::Num(spec_render_i64(vals[3])));
    let p5 = (keys[4], JsonV::Num(spec_render_i64(vals[4])));
    let fields = num_field_pairs(keys, vals);
    assert(fields =~= seq![p1, p2, p3, p4, p5]);
    assert(seq![p1, p2, p3, p4, p5].drop_first() =~= seq![p2, p3, p4, p5]);
    assert(seq![p2, p3, p4, p5].drop_first() =~= seq![p3, p4, p5]);
    assert(seq![p3, p4, p5].drop_first() =~= seq![p4, p5]);
    assert(seq![p4, p5].drop_first() =~= seq![p5]);
    lemma_render_parse_i64_roundtrip(vals[0]);
    lemma_render_parse_i64_roundtrip(vals[1]);
    lemma_render_parse_i64_roundtrip(vals[2]);
    lemma_render_parse_i64_roundtrip(vals[3]);
    lemma_render_parse_i64_roundtrip(vals[4]);
    // the conventional attempt fails on the missing second practice
    assert(seq![p5].drop_first() =~= Seq::<(Seq<char>, JsonV)>::empty());
    assert("gp"@ != "fp2"@ && "qualifying"@ != "fp2"@ && "sprint"@ != "fp2"@
        && "sprintQualifying"@ != "fp2"@);
    assert(spec_lookup(Seq::<(Seq<char>, JsonV)>::empty(), "fp2"@) is None);
    assert(spec_lookup(seq![p5], "fp2"@) is None);
    assert(spec_lookup(seq![p4, p5], "fp2"@) is None);
    assert(spec_lookup(seq![p3, p4, p5], "fp2"@) is None);
    assert(spec_lookup(seq![p2, p3, p4, p5], "fp2"@) is None);
    assert(spec_lookup(fields, "fp2"@) is None);
    assert(spec_cached_session(fields, "fp2"@) is None);
    assert(spec_lookup(seq![p5], "gp"@) == Some(p5.1));
    assert(spec_lookup(seq![p4, p5], "gp"@) == Some(p5.1));
    assert(spec_lookup(seq![p3, p4, p5], "gp"@) == Some(p5.1));
    assert(spec_lookup(seq![p2, p3, p4, p5], "gp"@) == Some(p5.1));
    assert(spec_lookup(fields, "gp"@) == Some(p5.1));
    assert(spec_lookup(seq![p4, p5], "qualifying"@) == Some(p4.1));
    assert(spec_lookup(seq![p3, p4, p5], "qualifying"@) == Some(p4.1));
    assert(spec_lookup(seq![p2, p3, p4, p5], "qualifying"@) == Some(p4.1));
    assert(spec_lookup(fields, "qualifying"@) == Some(p4.1));
    assert(spec_lookup(seq![p3, p4, p5], "sprint"@) == Some(p3.1));
    assert(spec_lookup(seq![p2, p3, p4, p5], "sprint"@) == Some(p3.1));
    assert(spec_lookup(fields, "sprint"@) == Some(p3.1));
    assert(spec_lookup(seq![p2, p3, p4, p5], "sprintQualifying"@) == Some(p2.1));
    assert(spec_lookup(fields, "sprintQualifying"@) == Some(p2.1));
    assert(spec_lookup(fields, "fp1"@) == Some(p1.1));
    assert(spec_cached_session(fields, "fp1"@) == Some(w.fp1));
    assert(spec_cached_session(fields, "sprintQualifying"@) == Some(w.sprint_qualifying));
    assert(spec_cached_session(fields, "sprint"@) == Some(w.sprint));
    assert(spec_cached_session(fields, "qualifying"@) == Some(w.qualifying));
    assert(spec_cached_session(fields, "gp"@) == Some(w.gp));
}

/// One cache tree reads back to the sessions it encodes.
proof fn lemma_sessions_from_tree(ss: Sessions)
    ensures
        spec_sessions_from_cache(sessions_tree(ss)) == Some(ss),
{
    match ss {
        Sessions::Normal(w) => lemma_sessions_from_tree_normal(w),
        Sessions::Sprint(w) => lemma_sessions_from_tree_sprint(w),
    }
}


/// The cache tree of one Grand Prix weekend.
pub open spec fn gp_tree(g: GrandPrixV) -> JsonV {
    JsonV::Obj(
        seq![
            ("name"@, JsonV::Str(g.name)),
            ("location"@, JsonV::Str(g.location)),
            ("sessions"@, sessions_tree(g.sessions)),
        ],
    )
}

proof fn lemma_encode_gp_len(g: GrandPrixV)
    ensures
        spec_encode_gp(g).len() >= 13,
{
    lemma_encode_sessions_shape(g.sessions);
}

/// Reading one encoded weekend back yields its cache tree.
#[verifier::rlimit(100)]
#[verifier::spinoff_prover]
proof fn lemma_parse_gp(s: Seq<char>, i: int, g: GrandPrixV, fuel: nat)
    requires
        fuel >= spec_encode_gp(g).len(),
        0 <= i,
        i + spec_encode_gp(g).len() <= s.len(),
        s.subrange(i, i + spec_encode_gp(g).len()) == spec_encode_gp(g),
    ensures
        spec_parse_value(s, i, fuel) == Some((gp_tree(g), i + spec_encode_gp(g).len())),
{
    let enc = spec_encode_gp(g);
    let ek1 = spec_escape("name"@);
    let ek2 = spec_escape("location"@);
    let ek3 = spec_escape("sessions"@);
    let en1 = spec_escape(g.name);
    let en2 = spec_escape(g.location);
    let ses = spec_encode_sessions(g.sessions);
    lemma_encode_gp_len(g);
    lemma_encode_sessions_shape(g.sessions);
    let a1 = 1int;  // opening quote of the first key
    let a2 = a1 + ek1.len() + 2;  // ':' after it
    let a3 = a2 + 1;  // the name value
    let a4 = a3 + en1.len() + 2;  // ',' after it
    let a5 = a4 + 1;  // second key
    let a6 = a5 + ek2.len() + 2;  // ':' after it
    let a7 = a6 + 1;  // the location value
    let a8 = a7 + en2.len() + 2;  // ',' after it
    let a9 = a8 + 1;  // third key
    let a10 = a9 + ek3.len() + 2;  // ':' after it
    let a11 = a10 + 1;  // the sessions object
    let a12 = a11 + ses.len();  // closing brace
    assert(enc.len() == a12 + 1);
    lemma_char_at(s, i, enc, 0);
    assert(s[i] == '{');
    lemma_char_at(s, i, enc, a1);
    lemma_char_at(s, i, enc, a2 - 1);
    lemma_char_at(s, i, enc, a2);
    lemma_char_at(s, i, enc, a3);
    lemma_char_at(s, i, enc, a4);
    lemma_char_at(s, i, enc, a5);
    lemma_char_at(s, i, enc, a6 - 1);
    lemma_char_at(s, i, enc, a6);
    lemma_char_at(s, i, enc, a7);
    lemma_char_at(s, i, enc, a8);
    lemma_char_at(s, i, enc, a9);
    lemma_char_at(s, i, enc, a10 - 1);
    lemma_char_at(s, i, enc, a10);
    lemma_char_at(s, i, enc, a11);
    lemma_char_at(s, i, enc, a12);
    assert(s[i + a1] == '"' && s[i + a2 - 1] == '"' && s[i + a2] == ':' && s[i + a3] == '"');
    assert(s[i + a4] == ',');
    assert(s[i + a5] == '"' && s[i + a6 - 1] == '"' && s[i + a6] == ':' && s[i + a7] == '"');
    assert(s[i + a8] == ',');
    assert(s[i + a9] == '"' && s[i + a10 - 1] == '"' && s[i + a10] == ':');
    assert(s[i + a11] == '{' && s[i + a12] == '}');
    lemma_sub_at(s, i, enc, a1 + 1, a1 + 1 + ek1.len());
    assert(enc.subrange(a1 + 1, a1 + 1 + ek1.len() as int) =~= ek1);
    lemma_parse_string_escaped(s, i + a1 + 1, "name"@);
    lemma_sub_at(s, i, enc, a3 + 1, a3 + 1 + en1.len());
    assert(enc.subrange(a3 + 1, a3 + 1 + en1.len() as int) =~= en1);
    lemma_char_at(s, i, enc, a4 - 1);
    assert(s[i + a4 - 1] == '"');
    lemma_parse_string_escaped(s, i + a3 + 1, g.name);
    lemma_sub_at(s, i, enc, a5 + 1, a5 + 1 + ek2.len());
    assert(enc.subrange(a5 + 1, a5 + 1 + ek2.len() as int) =~= ek2);
    lemma_parse_string_escaped(s, i + a5 + 1, "location"@);
    lemma_sub_at(s, i, enc, a7 + 1, a7 + 1 + en2.len());
    assert(enc.subrange(a7 + 1, a7 + 1 + en2.len() as int) =~= en2);
    lemma_char_at(s, i, enc, a8 - 1);
    assert(s[i + a8 - 1] == '"');
    lemma_parse_string_escaped(s, i + a7 + 1, g.location);
    lemma_sub_at(s, i, enc, a9 + 1, a9 + 1 + ek3.len());
    assert(enc.subrange(a9 + 1, a9 + 1 + ek3.len() as int) =~= ek3);
    lemma_parse_string_escaped(s, i + a9 + 1, "sessions"@);
    lemma_sub_at(s, i, enc, a11, a12);
    assert(enc.subrange(a11, a12) =~= ses);
    lemma_parse_sessions(s, i + a11, g.sessions, (fuel - 4) as nat);
    assert(!is_ws('"') && !is_ws(':') && !is_ws(',') && !is_ws('{') && !is_ws('}'));
    assert(spec_skip_ws(s, i + a1) == i + a1);
    assert(spec_skip_ws(s, i + a2 + 1) == i + a3);
    assert(spec_skip_ws(s, i + a4) == i + a4);
    assert(spec_skip_ws(s, i + a5) == i + a5);
    assert(spec_skip_ws(s, i + a6 + 1) == i + a7);
    assert(spec_skip_ws(s, i + a8) == i + a8);
    assert(spec_skip_ws(s, i + a9) == i + a9);
    assert(spec_skip_ws(s, i + a10 + 1) == i + a11);
    assert(spec_skip_ws(s, i + a12) == i + a12);
    let f1 = ("name"@, JsonV::Str(g.name));
    let f2 = ("location"@, JsonV::Str(g.location));
    let f3 = ("sessions"@, sessions_tree(g.sessions));
    let acc0 = Seq::<(Seq<char>, JsonV)>::empty();
    assert(spec_parse_value(s, i + a11, (fuel - 4) as nat) == Some(
        (sessions_tree(g.sessions), i + a12),
    ));
    assert(spec_parse_obj_items(s, i + a9, acc0.push(f1).push(f2), (fuel - 3) as nat) == Some(
        (JsonV::Obj(acc0.push(f1).push(f2).push(f3)), i + a12 + 1),
    ));
    assert(spec_parse_value(s, i + a7, (fuel - 3) as nat) == Some(
        (JsonV::Str(g.location), i + a8),
    ));
    assert(spec_parse_obj_items(s, i + a5, acc0.push(f1), (fuel - 2) as nat) == Some(
        (JsonV::Obj(acc0.push(f1).push(f2).push(f3)), i + a12 + 1),
    ));
    assert(spec_parse_value(s, i + a3, (fuel - 2) as nat) == Some(
        (JsonV::Str(g.name), i + a4),
    ));
    assert(spec_parse_obj_items(s, i + a1, acc0, (fuel - 1) as nat) == Some(
        (JsonV::Obj(acc0.push(f1).push(f2).push(f3)), i + a12 + 1),
    ));
    assert(acc0.push(f1).push(f2).push(f3) =~= seq![f1, f2, f3]);
    assert(s[i + a1] != '}');
    assert(spec_skip_ws(s, i + 1) == i + 1);
    assert(spec_parse_value(s, i, fuel) == Some((gp_tree(g), i + a12 + 1)));
}

/// The cache trees of a schedule's weekends, in order.
pub open spec fn gp_trees(v: Seq<GrandPrixV>) -> Seq<JsonV>
    decreases v.len(),
{
    if v.len() == 0 {
        Seq::empty()
    } else {
        seq![gp_tree(v[0])] + gp_trees(v.drop_first())
    }
}

/// Reading the encoded weekends of a non-empty schedule back yields their
/// trees.
#[verifier::rlimit(100)]
#[verifier::spinoff_prover]
proof fn lemma_parse_gp_items(
    s: Seq<char>,
    i: int,
    acc: Seq<JsonV>,
    v: Seq<GrandPrixV>,
    fuel: nat,
)
    requires
        v.len() >= 1,
        0 <= i,
        i + spec_enc_gp_items(v).len() + 1 <= s.len(),
        s.subrange(i, i + spec_enc_gp_items(v).len()) == spec_enc_gp_items(v),
        s[i + spec_enc_gp_items(v).len()] == ']',
        fuel >= spec_enc_gp_items(v).len() + 1,
    ensures
        spec_parse_arr_items(s, i, acc, fuel) == Some(
            (JsonV::Arr(acc + gp_trees(v)), i + spec_enc_gp_items(v).len() + 1),
        ),
    decreases v.len(),
{
    let its = spec_enc_gp_items(v);
    let e0 = spec_encode_gp(v[0]);
    lemma_encode_gp_len(v[0]);
    lemma_char_at(s, i, its, 0);
    assert(its[0] == e0[0]);
    assert(e0[0] == '{');
    assert(!is_ws('{'));
    assert(spec_skip_ws(s, i) == i);
    lemma_sub_at(s, i, its, 0, e0.len() as int);
    assert(its.subrange(0, e0.len() as int) =~= e0);
    lemma_parse_gp(s, i, v[0], (fuel - 1) as nat);
    let after = i + e0.len();
    if v.len() == 1 {
        assert(its == e0);
        assert(s[after] == ']');
        assert(!is_ws(']'));
        assert(spec_skip_ws(s, after) == after);
        assert(gp_trees(v.drop_first()) =~= Seq::<JsonV>::empty());
        assert(gp_trees(v) =~= seq![gp_tree(v[0])]);
        assert(acc.push(gp_tree(v[0])) =~= acc + gp_trees(v));
    } else {
        let tail = v.drop_first();
        assert(forall|k: int| 0 <= k < tail.len() ==> tail[k] == v[k + 1]);
        let trest = spec_enc_gp_items(tail);
        assert(its == e0 + seq![','] + trest);
        lemma_char_at(s, i, its, e0.len() as int);
        assert(its[e0.len() as int] == ',');
        assert(s[after] == ',');
        assert(!is_ws(','));
        assert(spec_skip_ws(s, after) == after);
        lemma_sub_at(s, i, its, e0.len() + 1int, its.len() as int);
        assert(its.subrange(e0.len() + 1int, its.len() as int) =~= trest);
        assert(s[after + 1 + trest.len()] == ']') by {
            assert(after + 1 + trest.len() == i + its.len());
        }
        lemma_parse_gp_items(s, after + 1, acc.push(gp_tree(v[0])), tail, (fuel - 1) as nat);
        assert(acc.push(gp_tree(v[0])) + gp_trees(tail) =~= acc + gp_trees(v));
    }
}

/// One cache tree reads back to the weekend it encodes.
proof fn lemma_gp_from_tree(g: GrandPrixV)
    ensures
        spec_gp_from_cache(gp_tree(g)) == Some(g),
{
    reveal_strlit("name");
    reveal_strlit("location");
    reveal_strlit("sessions");
    let f1 = ("name"@, JsonV::Str(g.name));
    let f2 = ("location"@, JsonV::Str(g.location));
    let f3 = ("sessions"@, sessions_tree(g.sessions));
    let fields = seq![f1, f2, f3];
    assert("name"@.len() == 4 && "location"@.len() == 8 && "sessions"@.len() == 8);
    assert("location"@[0] == 'l' && "sessions"@[0] == 's');
    assert("location"@ != "sessions"@) by {
        if "location"@ == "sessions"@ {
            assert("location"@[0] == "sessions"@[0]);
        }
    }
    assert(fields.drop_first() =~= seq![f2, f3]);
    assert(seq![f2, f3].drop_first() =~= seq![f3]);
    assert(spec_lookup(fields, "name"@) == Some(f1.1));
    assert(spec_lookup(seq![f3], "sessions"@) == Some(f3.1));
    assert(spec_lookup(seq![f2, f3], "location"@) == Some(f2.1));
    assert(spec_lookup(seq![f2, f3], "sessions"@) == Some(f3.1));
    assert(spec_lookup(fields, "location"@) == Some(f2.1));
    assert(spec_lookup(fields, "sessions"@) == Some(f3.1));
    lemma_sessions_from_tree(g.sessions);
}

proof fn lemma_gps_from_trees(v: Seq<GrandPrixV>)
    ensures
        spec_gps_from_cache_items(gp_trees(v)) == Some(v),
    decreases v.len(),
{
    if v.len() == 0 {
        assert(gp_trees(v) =~= Seq::<JsonV>::empty());
        assert(Seq::<GrandPrixV>::empty() =~= v);
    } else {
        let tail = v.drop_first();
        lemma_gp_from_tree(v[0]);
        lemma_gps_from_trees(tail);
        let ts = gp_trees(v);
        assert(ts[0] == gp_tree(v[0]));
        assert(ts.drop_first() =~= gp_trees(tail));
        assert(seq![v[0]] + tail =~= v);
    }
}

/// Writing a schedule to cache and reading it back yields the same
/// calendar, weekend for weekend.
#[verifier::rlimit(100)]
#[verifier::spinoff_prover]
pub proof fn lemma_cache_roundtrip_schedule(v: ScheduleV)
    ensures
        spec_decode_schedule(spec_encode_schedule(v)) == Ok::<ScheduleV, Error>(v),
{
    reveal_strlit("races");
    let s = spec_encode_schedule(v);
    let its = spec_enc_gp_items(v.races);
    let ek = spec_escape("races"@);
    let a1 = 1int;  // opening quote of the races key
    let a2 = a1 + ek.len() + 2;  // ':' after it
    let a3 = a2 + 1;  // '['
    let a4 = a3 + 1 + its.len();  // ']'
    assert(s.len() == a4 + 2);
    assert(s =~= seq!['{'] + spec_quoted("races"@) + seq![':'] + seq!['['] + its + seq![']']
        + seq!['}']);
    assert(s.subrange(0, s.len() as int) =~= s);
    lemma_char_at(s, 0, s, 0);
    assert(s[0] == '{');
    lemma_char_at(s, 0, s, a1);
    lemma_char_at(s, 0, s, a2 - 1);
    lemma_char_at(s, 0, s, a2);
    lemma_char_at(s, 0, s, a3);
    lemma_char_at(s, 0, s, a4);
    lemma_char_at(s, 0, s, a4 + 1);
    assert(s[a1] == '"' && s[a2 - 1] == '"' && s[a2] == ':' && s[a3] == '[');
    assert(s[a4] == ']' && s[a4 + 1] == '}');
    lemma_sub_at(s, 0, s, a1 + 1, a1 + 1 + ek.len());
    assert(s.subrange(a1 + 1, a1 + 1 + ek.len() as int) =~= ek);
    lemma_parse_string_escaped(s, a1 + 1, "races"@);
    assert(!is_ws('{') && !is_ws('"') && !is_ws(':') && !is_ws('[') && !is_ws(']') && !is_ws(
        '}',
    ) && !is_ws(','));
    assert(spec_skip_ws(s, 0) == 0);
    assert(spec_skip_ws(s, a1) == a1);
    assert(spec_skip_ws(s, a2 + 1) == a3);
    assert(spec_skip_ws(s, a4 + 1) == a4 + 1);
    let fuel = s.len();
    // the race array, parsed as one value
    if v.races.len() == 0 {
        assert(its =~= Seq::<char>::empty());
        assert(a4 == a3 + 1);
        assert(spec_skip_ws(s, a3 + 1) == a4);
        assert(gp_trees(v.races) =~= Seq::<JsonV>::empty());
        assert(spec_parse_value(s, a3, (fuel - 2) as nat) == Some(
            (JsonV::Arr(gp_trees(v.races)), a4 + 1),
        ));
    } else {
        lemma_encode_gp_len(v.races[0]);
        lemma_sub_at(s, 0, s, a3 + 1, a3 + 1 + its.len());
        assert(s.subrange(a3 + 1, a3 + 1 + its.len() as int) =~= its);
        lemma_char_at(s, 0, s, a3 + 1);
        assert(its[0] == spec_encode_gp(v.races[0])[0]);
        assert(s[a3 + 1] == '{');
        assert(spec_skip_ws(s, a3 + 1) == a3 + 1);
        lemma_parse_gp_items(s, a3 + 1, Seq::<JsonV>::empty(), v.races, (fuel - 3) as nat);
        assert(Seq::<JsonV>::empty() + gp_trees(v.races) =~= gp_trees(v.races));
        assert(spec_parse_value(s, a3, (fuel - 2) as nat) == Some(
            (JsonV::Arr(gp_trees(v.races)), a4 + 1),
        ));
    }
    let f1 = ("races"@, JsonV::Arr(gp_trees(v.races)));
    let acc0 = Seq::<(Seq<char>, JsonV)>::empty();
    assert(spec_parse_obj_items(s, a1, acc0, (fuel - 1) as nat) == Some(
        (JsonV::Obj(acc0.push(f1)), a4 + 2),
    ));
    assert(acc0.push(f1) =~= seq![f1]);
    assert(s[a1] != '}');
    assert(spec_skip_ws(s, 1) == 1);
    assert(spec_parse_value(s, 0, fuel) == Some(
        (JsonV::Obj(seq![f1]), s.len() as int),
    ));
    assert(spec_skip_ws(s, s.len() as int) == s.len());
    assert(spec_parse_json(s) == Some(JsonV::Obj(seq![f1])));
    assert(spec_lookup(seq![f1], "races"@) == Some(f1.1));
    lemma_gps_from_trees(v.races);
    assert(ScheduleV { races: v.races } =~= v);
}

} // verus!
