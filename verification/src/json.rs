//! A small JSON reader and the cache file format.
//!
//! The cache holds the direct JSON serialization of the record collections,
//! and the schedule feed arrives as JSON too, so the library carries its own
//! verified reader: a fueled recursive-descent parser into a value tree.
//! It accepts objects, arrays, strings with the common escapes, raw number
//! spans, and the three literal words; it does not accept `\u` escapes.
//! Numbers are kept as raw text and never interpreted as floating point.

use vstd::prelude::*;

use crate::error::Error;
use crate::text::{is_ws, push_char};

verus! {

/// One JSON value: numbers stay raw text, object fields keep their order.
#[derive(Debug)]
pub enum Json {
    Null,
    Bool(bool),
    Num(String),
    Str(String),
    Arr(Vec<Json>),
    Obj(Vec<(String, Json)>),
}

/// The mathematical shape of a [`Json`] value.
pub enum JsonV {
    Null,
    Bool(bool),
    Num(Seq<char>),
    Str(Seq<char>),
    Arr(Seq<JsonV>),
    Obj(Seq<(Seq<char>, JsonV)>),
}

/// The view of a [`Json`] value.
pub open spec fn json_view(j: Json) -> JsonV
    decreases j,
{
    match j {
        Json::Null => JsonV::Null,
        Json::Bool(b) => JsonV::Bool(b),
        Json::Num(s) => JsonV::Num(s@),
        Json::Str(s) => JsonV::Str(s@),
        Json::Arr(items) => JsonV::Arr(jsons_view(items@)),
        Json::Obj(fields) => JsonV::Obj(jfields_view(fields@)),
    }
}

/// The views of a sequence of [`Json`] values.
pub open spec fn jsons_view(items: Seq<Json>) -> Seq<JsonV>
    decreases items,
{
    if items.len() == 0 {
        Seq::empty()
    } else {
        jsons_view(items.drop_last()).push(json_view(items.last()))
    }
}

/// The views of a sequence of object fields.
pub open spec fn jfields_view(fields: Seq<(String, Json)>) -> Seq<(Seq<char>, JsonV)>
    decreases fields,
{
    if fields.len() == 0 {
        Seq::empty()
    } else {
        jfields_view(fields.drop_last()).push(
            (fields.last().0@, json_view(fields.last().1)),
        )
    }
}

/// The first position at or after `i` that holds no blank.
pub open spec fn spec_skip_ws(s: Seq<char>, i: int) -> int
    decreases s.len() - i,
{
    if 0 <= i < s.len() && is_ws(s[i]) {
        spec_skip_ws(s, i + 1)
    } else {
        i
    }
}

/// What one escape character after a backslash stands for.
pub open spec fn spec_unescape(c: char) -> Option<char> {
    if c == '"' {
        Some('"')
    } else if c == '\\' {
        Some('\\')
    } else if c == '/' {
        Some('/')
    } else if c == 'n' {
        Some('\n')
    } else if c == 't' {
        Some('\t')
    } else if c == 'r' {
        Some('\r')
    } else if c == 'b' {
        Some('\u{0008}')
    } else if c == 'f' {
        Some('\u{000c}')
    } else {
        None
    }
}

/// The body of a string literal read from just after its opening quote:
/// the decoded text and the position after the closing quote.
pub open spec fn spec_parse_string(s: Seq<char>, i: int) -> Option<(Seq<char>, int)>
    decreases s.len() - i,
{
    if i < 0 || i >= s.len() {
        None
    } else if s[i] == '"' {
        Some((Seq::empty(), i + 1))
    } else if s[i] == '\\' {
        if i + 1 >= s.len() {
            None
        } else {
            match spec_unescape(s[i + 1]) {
                None => None,
                Some(c) => match spec_parse_string(s, i + 2) {
                    None => None,
                    Some((rest, j)) => Some((seq![c] + rest, j)),
                },
            }
        }
    } else {
        match spec_parse_string(s, i + 1) {
            None => None,
            Some((rest, j)) => Some((seq![s[i]] + rest, j)),
        }
    }
}

/// May `c` stand in a raw number span?
pub open spec fn is_num_char(c: char) -> bool {
    (48 <= c as int && c as int <= 57) || c == '-' || c == '+' || c == '.' || c == 'e' || c == 'E'
}

/// The end of the maximal number span starting at `i`.
pub open spec fn spec_num_end(s: Seq<char>, i: int) -> int
    decreases s.len() - i,
{
    if 0 <= i < s.len() && is_num_char(s[i]) {
        spec_num_end(s, i + 1)
    } else {
        i
    }
}

/// Does `word` stand in `s` at position `i`?
pub open spec fn spec_word_at(s: Seq<char>, i: int, word: Seq<char>) -> bool {
    0 <= i && i + word.len() <= s.len() && s.subrange(i, i + word.len()) == word
}

/// One JSON value read at position `i` (no leading blanks): the value and
/// the position after it. The fuel bounds recursion and is spent faster
/// than input, so a run out of fuel never happens on accepted text.
pub open spec fn spec_parse_value(s: Seq<char>, i: int, fuel: nat) -> Option<(JsonV, int)>
    decreases fuel,
{
    if fuel == 0 || i < 0 || i >= s.len() {
        None
    } else if s[i] == 'n' {
        if spec_word_at(s, i, "null"@) {
            Some((JsonV::Null, i + 4))
        } else {
            None
        }
    } else if s[i] == 't' {
        if spec_word_at(s, i, "true"@) {
            Some((JsonV::Bool(true), i + 4))
        } else {
            None
        }
    } else if s[i] == 'f' {
        if spec_word_at(s, i, "false"@) {
            Some((JsonV::Bool(false), i + 5))
        } else {
            None
        }
    } else if s[i] == '"' {
        match spec_parse_string(s, i + 1) {
            None => None,
            Some((t, j)) => Some((JsonV::Str(t), j)),
        }
    } else if s[i] == '[' {
        let j = spec_skip_ws(s, i + 1);
        if j < s.len() && s[j] == ']' {
            Some((JsonV::Arr(Seq::empty()), j + 1))
        } else {
            spec_parse_arr_items(s, i + 1, Seq::empty(), (fuel - 1) as nat)
        }
    } else if s[i] == '{' {
        let j = spec_skip_ws(s, i + 1);
        if j < s.len() && s[j] == '}' {
            Some((JsonV::Obj(Seq::empty()), j + 1))
        } else {
            spec_parse_obj_items(s, i + 1, Seq::empty(), (fuel - 1) as nat)
        }
    } else if is_num_char(s[i]) {
        let e = spec_num_end(s, i);
        Some((JsonV::Num(s.subrange(i, e)), e))
    } else {
        None
    }
}

/// The remaining items of an array, read from `i` (just after `[` or a
/// comma), with the items already read in front.
pub open spec fn spec_parse_arr_items(s: Seq<char>, i: int, acc: Seq<JsonV>, fuel: nat) -> Option<
    (JsonV, int),
>
    decreases fuel,
{
    if fuel == 0 {
        None
    } else {
        let j = spec_skip_ws(s, i);
        match spec_parse_value(s, j, (fuel - 1) as nat) {
            None => None,
            Some((v, k)) => {
                let m = spec_skip_ws(s, k);
                if m < s.len() && s[m] == ',' {
                    spec_parse_arr_items(s, m + 1, acc.push(v), (fuel - 1) as nat)
                } else if m < s.len() && s[m] == ']' {
                    Some((JsonV::Arr(acc.push(v)), m + 1))
                } else {
                    None
                }
            },
        }
    }
}

/// The remaining fields of an object, read from `i` (just after `{` or a
/// comma), with the fields already read in front.
pub open spec fn spec_parse_obj_items(
    s: Seq<char>,
    i: int,
    acc: Seq<(Seq<char>, JsonV)>,
    fuel: nat,
) -> Option<(JsonV, int)>
    decreases fuel,
{
    if fuel == 0 {
        None
    } else {
        let j = spec_skip_ws(s, i);
        if j < s.len() && s[j] == '"' {
            match spec_parse_string(s, j + 1) {
                None => None,
                Some((key, k)) => {
                    let m = spec_skip_ws(s, k);
                    if m < s.len() && s[m] == ':' {
                        let v0 = spec_skip_ws(s, m + 1);
                        match spec_parse_value(s, v0, (fuel - 1) as nat) {
                            None => None,
                            Some((v, p)) => {
                                let q = spec_skip_ws(s, p);
                                if q < s.len() && s[q] == ',' {
                                    spec_parse_obj_items(
                                        s,
                                        q + 1,
                                        acc.push((key, v)),
                                        (fuel - 1) as nat,
                                    )
                                } else if q < s.len() && s[q] == '}' {
                                    Some((JsonV::Obj(acc.push((key, v))), q + 1))
                                } else {
                                    None
                                }
                            },
                        }
                    } else {
                        None
                    }
                },
            }
        } else {
            None
        }
    }
}

/// What reading a whole document yields: one value, with nothing but
/// blanks around it.
pub open spec fn spec_parse_json(s: Seq<char>) -> Option<JsonV> {
    let i = spec_skip_ws(s, 0);
    match spec_parse_value(s, i, s.len()) {
        None => None,
        Some((v, j)) => if spec_skip_ws(s, j) == s.len() {
            Some(v)
        } else {
            None
        },
    }
}

/// The characters of `s`, one by one.
pub fn str_to_chars(s: &str) -> (r: Vec<char>)
    ensures
        r@ == s@,
{
    let n: usize = s.unicode_len();
    let mut out: Vec<char> = Vec::new();
    let mut i: usize = 0;
    while i < n
        invariant
            0 <= i <= n == s@.len(),
            out@ =~= s@.take(i as int),
        decreases n - i,
    {
        out.push(s.get_char(i));
        i = i + 1;
    }
    proof {
        assert(s@.take(n as int) =~= s@);
    }
    out
}

fn skip_ws(s: &Vec<char>, i: usize) -> (r: usize)
    requires
        i <= s@.len(),
    ensures
        r as int == spec_skip_ws(s@, i as int),
        i <= r <= s@.len(),
{
    let mut j = i;
    while j < s.len() && (s[j] == ' ' || s[j] == '\t' || s[j] == '\n' || s[j] == '\r')
        invariant
            i <= j <= s@.len(),
            spec_skip_ws(s@, i as int) == spec_skip_ws(s@, j as int),
        decreases s@.len() - j,
    {
        j = j + 1;
    }
    j
}

fn parse_string_body(s: &Vec<char>, i: usize) -> (r: Option<(String, usize)>)
    requires
        i <= s@.len(),
    ensures
        (match r {
            Some((t, j)) => Some((t@, j as int)),
            None => None,
        }) == spec_parse_string(s@, i as int),
        r matches Some((t, j)) ==> i < j <= s@.len(),
{
    let mut out = String::new();
    let mut j = i;
    loop
        invariant
            i <= j <= s@.len(),
            (match spec_parse_string(s@, j as int) {
                Some((rest, e)) => Some((out@ + rest, e)),
                None => None,
            }) == spec_parse_string(s@, i as int),
        decreases s@.len() - j,
    {
        if j >= s.len() {
            return None;
        }
        let c = s[j];
        if c == '"' {
            proof {
                assert(out@ + Seq::<char>::empty() =~= out@);
            }
            return Some((out, j + 1));
        } else if c == '\\' {
            if j + 1 >= s.len() {
                return None;
            }
            let e = s[j + 1];
            let dec = if e == '"' {
                '"'
            } else if e == '\\' {
                '\\'
            } else if e == '/' {
                '/'
            } else if e == 'n' {
                '\n'
            } else if e == 't' {
                '\t'
            } else if e == 'r' {
                '\r'
            } else if e == 'b' {
                '\u{0008}'
            } else if e == 'f' {
                '\u{000c}'
            } else {
                return None;
            };
            let ghost pre = out@;
            push_char(&mut out, dec);
            proof {
                match spec_parse_string(s@, j + 2) {
                    Some((rest, end)) => {
                        assert(pre + (seq![dec] + rest) =~= out@ + rest);
                    },
                    None => {},
                }
            }
            j = j + 2;
        } else {
            let ghost pre = out@;
            push_char(&mut out, c);
            proof {
                match spec_parse_string(s@, j + 1) {
                    Some((rest, end)) => {
                        assert(pre + (seq![c] + rest) =~= out@ + rest);
                    },
                    None => {},
                }
            }
            j = j + 1;
        }
    }
}

fn word_at(s: &Vec<char>, i: usize, word: &Vec<char>) -> (r: bool)
    requires
        i <= s@.len(),
    ensures
        r == spec_word_at(s@, i as int, word@),
{
    let m = word.len();
    if s.len() - i < m {
        return false;
    }
    let mut k: usize = 0;
    while k < m
        invariant
            0 <= k <= m == word@.len(),
            i + m <= s@.len() <= usize::MAX,
            forall|t: int| 0 <= t < k ==> s@[i + t] == word@[t],
        decreases m - k,
    {
        if s[i + k] != word[k] {
            assert(s@.subrange(i as int, i + word@.len())[k as int] != word@[k as int]);
            return false;
        }
        k = k + 1;
    }
    proof {
        assert(s@.subrange(i as int, i + word@.len()) =~= word@);
    }
    true
}

fn is_num_char_at(c: char) -> (r: bool)
    ensures
        r == is_num_char(c),
{
    let v = c as u32;
    (48 <= v && v <= 57) || c == '-' || c == '+' || c == '.' || c == 'e' || c == 'E'
}

fn num_end(s: &Vec<char>, i: usize) -> (r: usize)
    requires
        i <= s@.len(),
    ensures
        r as int == spec_num_end(s@, i as int),
        i <= r <= s@.len(),
{
    let mut j = i;
    while j < s.len() && is_num_char_at(s[j])
        invariant
            i <= j <= s@.len(),
            spec_num_end(s@, i as int) == spec_num_end(s@, j as int),
        decreases s@.len() - j,
    {
        j = j + 1;
    }
    j
}

fn parse_value(s: &Vec<char>, i: usize, fuel: usize) -> (r: Option<(Json, usize)>)
    requires
        i <= s@.len(),
    ensures
        (match r {
            Some((v, j)) => Some((json_view(v), j as int)),
            None => None,
        }) == spec_parse_value(s@, i as int, fuel as nat),
        r matches Some((v, j)) ==> j <= s@.len(),
    decreases fuel,
{
    if fuel == 0 || i >= s.len() {
        return None;
    }
    let c = s[i];
    if c == 'n' {
        let word = str_to_chars("null");
        if word_at(s, i, &word) {
            proof {
                reveal_strlit("null");
            }
            Some((Json::Null, i + 4))
        } else {
            None
        }
    } else if c == 't' {
        let word = str_to_chars("true");
        if word_at(s, i, &word) {
            proof {
                reveal_strlit("true");
            }
            Some((Json::Bool(true), i + 4))
        } else {
            None
        }
    } else if c == 'f' {
        let word = str_to_chars("false");
        if word_at(s, i, &word) {
            proof {
                reveal_strlit("false");
            }
            Some((Json::Bool(false), i + 5))
        } else {
            None
        }
    } else if c == '"' {
        match parse_string_body(s, i + 1) {
            None => None,
            Some((t, j)) => Some((Json::Str(t), j)),
        }
    } else if c == '[' {
        let j = skip_ws(s, i + 1);
        if j < s.len() && s[j] == ']' {
            let empty: Vec<Json> = Vec::new();
            proof {
                assert(jsons_view(empty@) =~= Seq::<JsonV>::empty());
            }
            Some((Json::Arr(empty), j + 1))
        } else {
            parse_arr_items(s, i + 1, Vec::new(), fuel - 1)
        }
    } else if c == '{' {
        let j = skip_ws(s, i + 1);
        if j < s.len() && s[j] == '}' {
            let empty: Vec<(String, Json)> = Vec::new();
            proof {
                assert(jfields_view(empty@) =~= Seq::<(Seq<char>, JsonV)>::empty());
            }
            Some((Json::Obj(empty), j + 1))
        } else {
            parse_obj_items(s, i + 1, Vec::new(), fuel - 1)
        }
    } else if is_num_char_at(c) {
        let e = num_end(s, i);
        let mut t = String::new();
        let mut k = i;
        while k < e
            invariant
                i <= k <= e <= s@.len(),
                t@ =~= s@.subrange(i as int, k as int),
            decreases e - k,
        {
            push_char(&mut t, s[k]);
            proof {
                assert(s@.subrange(i as int, k + 1) =~= s@.subrange(i as int, k as int).push(
                    s@[k as int],
                ));
            }
            k = k + 1;
        }
        Some((Json::Num(t), e))
    } else {
        None
    }
}

fn parse_arr_items(s: &Vec<char>, i: usize, acc: Vec<Json>, fuel: usize) -> (r: Option<
    (Json, usize),
>)
    requires
        i <= s@.len(),
    ensures
        (match r {
            Some((v, j)) => Some((json_view(v), j as int)),
            None => None,
        }) == spec_parse_arr_items(s@, i as int, jsons_view(acc@), fuel as nat),
        r matches Some((v, j)) ==> j <= s@.len(),
    decreases fuel,
{
    if fuel == 0 {
        return None;
    }
    let j = skip_ws(s, i);
    match parse_value(s, j, fuel - 1) {
        None => None,
        Some((v, k)) => {
            let m = skip_ws(s, k);
            let mut acc = acc;
            if m < s.len() && s[m] == ',' {
                let ghost praw = acc@;
                acc.push(v);
                proof {
                    assert(acc@.drop_last() =~= praw);
                    assert(jsons_view(acc@) == jsons_view(praw).push(json_view(v)));
                }
                parse_arr_items(s, m + 1, acc, fuel - 1)
            } else if m < s.len() && s[m] == ']' {
                let ghost praw = acc@;
                acc.push(v);
                proof {
                    assert(acc@.drop_last() =~= praw);
                    assert(jsons_view(acc@) == jsons_view(praw).push(json_view(v)));
                }
                Some((Json::Arr(acc), m + 1))
            } else {
                None
            }
        },
    }
}

fn parse_obj_items(s: &Vec<char>, i: usize, acc: Vec<(String, Json)>, fuel: usize) -> (r: Option<
    (Json, usize),
>)
    requires
        i <= s@.len(),
    ensures
        (match r {
            Some((v, j)) => Some((json_view(v), j as int)),
            None => None,
        }) == spec_parse_obj_items(s@, i as int, jfields_view(acc@), fuel as nat),
        r matches Some((v, j)) ==> j <= s@.len(),
    decreases fuel,
{
    if fuel == 0 {
        return None;
    }
    let j = skip_ws(s, i);
    if j < s.len() && s[j] == '"' {
        match parse_string_body(s, j + 1) {
            None => None,
            Some((key, k)) => {
                let m = skip_ws(s, k);
                if m < s.len() && s[m] == ':' {
                    let v0 = skip_ws(s, m + 1);
                    match parse_value(s, v0, fuel - 1) {
                        None => None,
                        Some((v, p)) => {
                            let q = skip_ws(s, p);
                            let mut acc = acc;
                            if q < s.len() && s[q] == ',' {
                                let ghost praw = acc@;
                                acc.push((key, v));
                                proof {
                                    assert(acc@.drop_last() =~= praw);
                                    assert(jfields_view(acc@) == jfields_view(praw).push(
                                        (key@, json_view(v)),
                                    ));
                                }
                                parse_obj_items(s, q + 1, acc, fuel - 1)
                            } else if q < s.len() && s[q] == '}' {
                                let ghost praw = acc@;
                                acc.push((key, v));
                                proof {
                                    assert(acc@.drop_last() =~= praw);
                                    assert(jfields_view(acc@) == jfields_view(praw).push(
                                        (key@, json_view(v)),
                                    ));
                                }
                                Some((Json::Obj(acc), q + 1))
                            } else {
                                None
                            }
                        },
                    }
                } else {
                    None
                }
            },
        }
    } else {
        None
    }
}

/// Reads a whole JSON document into a value tree, or reports a decode
/// failure: exactly when the text is not one value of the accepted
/// grammar surrounded by blanks.
pub fn parse_json(s: &str) -> (r: Result<Json, Error>)
    ensures
        (match r {
            Ok(v) => Some(json_view(v)),
            Err(_) => None,
        }) == spec_parse_json(s@),
        r matches Err(e) ==> e == Error::Decode,
{
    let chars = str_to_chars(s);
    let n = chars.len();
    let i = skip_ws(&chars, 0);
    match parse_value(&chars, i, n) {
        None => Err(Error::Decode),
        Some((v, j)) => {
            let e = skip_ws(&chars, j);
            if e == n {
                Ok(v)
            } else {
                Err(Error::Decode)
            }
        },
    }
}

} // verus!
