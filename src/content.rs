use vstd::prelude::*;
use crate::json::{parse_json, json_parse_of, Json, JsonV};
use crate::model::{Header, MediaType, MediaExample, Response};
use crate::schema::{generate_schema, infer_spec, Schema, SchemaV};
use crate::text::{chars_of, string_of};

verus! {

/// What str::to_lowercase makes of a text.
pub uninterp spec fn lower_of(s: Seq<char>) -> Seq<char>;

/// Relies on str::to_lowercase: the result depends on the text alone.
#[verifier::external_body]
pub(crate) fn lowercase(s: &str) -> (r: String)
    ensures
        r@ == lower_of(s@),
{
    s.to_lowercase()
}

/// Whether two texts are equal.
pub fn text_eq(a: &str, b: &str) -> (r: bool)
    ensures
        r == (a@ == b@),
{
    let x = chars_of(a);
    let y = chars_of(b);
    if x.len() != y.len() {
        return false;
    }
    let mut i: usize = 0;
    while i < x.len()
        invariant
            i <= x.len(),
            x.len() == y.len(),
            x@ == a@,
            y@ == b@,
            forall|k: int| 0 <= k < i ==> x@[k] == y@[k],
        decreases x.len() - i,
    {
        if x[i] != y[i] {
            assert(x@[i as int] != y@[i as int]);
            assert(x@ != y@);
            return false;
        }
        i = i + 1;
    }
    assert(x@ =~= y@);
    true
}

/// `s` up to its first `;`, or the whole of it.
pub open spec fn before_semicolon(s: Seq<char>) -> Seq<char>
    decreases s.len(),
{
    if s.len() == 0 {
        s
    } else if s[0] == ';' {
        Seq::empty()
    } else {
        seq![s[0]] + before_semicolon(s.drop_first())
    }
}

/// The first header whose key, in lower case, is `content-type`.
pub open spec fn content_type_header(hs: Seq<Header>) -> Option<Header>
    decreases hs.len(),
{
    if hs.len() == 0 {
        None
    } else if lower_of(hs[0].key@) == seq!['c', 'o', 'n', 't', 'e', 'n', 't', '-', 't', 'y', 'p', 'e'] {
        Some(hs[0])
    } else {
        content_type_header(hs.drop_first())
    }
}

/// The media type that the headers declare: the value of the first `Content-Type`
/// header up to its first `;`.
pub fn header_content_type(headers: &Vec<Header>) -> (r: Option<String>)
    ensures
        match content_type_header(headers@) {
            Some(h) => r matches Some(t) && t@ == before_semicolon(h.value@),
            None => r is None,
        },
{
    let mut i: usize = 0;
    assert(headers@.subrange(0, headers@.len() as int) =~= headers@);
    while i < headers.len()
        invariant
            i <= headers.len(),
            content_type_header(headers@) == content_type_header(headers@.subrange(i as int, headers@.len() as int)),
        decreases headers.len() - i,
    {
        assert(headers@.subrange(i as int, headers@.len() as int)[0] == headers@[i as int]);
        let key = lowercase(headers[i].key.as_str());
        let is_ct = text_eq(key.as_str(), "content-type");
        proof {
            reveal_strlit("content-type");
            assert(("content-type")@ =~= seq!['c', 'o', 'n', 't', 'e', 'n', 't', '-', 't', 'y', 'p', 'e']);
        }
        if is_ct {
            let v = chars_of(headers[i].value.as_str());
            let mut out: Vec<char> = Vec::new();
            let mut k: usize = 0;
            assert(v@.subrange(0, v@.len() as int) =~= v@);
            assert(out@ + before_semicolon(v@) =~= before_semicolon(v@));
            while k < v.len() && v[k] != ';'
                invariant
                    k <= v.len(),
                    out@ + before_semicolon(v@.subrange(k as int, v@.len() as int)) == before_semicolon(v@),
                decreases v.len() - k,
            {
                let ghost rest = v@.subrange(k as int, v@.len() as int);
                assert(rest.drop_first() =~= v@.subrange(k + 1, v@.len() as int));
                out.push(v[k]);
                assert(out@ + before_semicolon(v@.subrange(k + 1, v@.len() as int)) =~= before_semicolon(v@)) by {
                    assert(before_semicolon(rest) == seq![v@[k as int]] + before_semicolon(rest.drop_first()));
                }
                k = k + 1;
            }
            proof {
                assert(v@.subrange(0, v@.len() as int) =~= v@);
                let rest = v@.subrange(k as int, v@.len() as int);
                if k < v.len() {
                    assert(rest[0] == ';');
                }
                assert(out@ =~= out@ + before_semicolon(rest));
            }
            return Some(string_of(&out));
        }
        assert(headers@.subrange(i as int, headers@.len() as int).drop_first() =~= headers@.subrange(i + 1, headers@.len() as int));
        i = i + 1;
    }
    None
}

/// What is made of a raw body: the media type it shows where it shows one, and its
/// content.
pub struct RawContent {
    pub content_type: Option<String>,
    pub media: MediaType,
}

/// `application/json`
pub open spec fn json_type() -> Seq<char> {
    seq!['a', 'p', 'p', 'l', 'i', 'c', 'a', 't', 'i', 'o', 'n', '/', 'j', 's', 'o', 'n']
}

/// `text/plain`
pub open spec fn text_type() -> Seq<char> {
    seq!['t', 'e', 'x', 't', '/', 'p', 'l', 'a', 'i', 'n']
}

/// Whether a document is an object or an array.
pub open spec fn is_structured(j: JsonV) -> bool {
    j is Object || j is Array
}

/// The media type, schema and example that a raw body `s` gives, where `parsed` is what
/// it reads as JSON: an object or array is JSON with its inferred schema and itself as
/// example; anything else (a JSON scalar, or text that is not JSON) is plain text, with
/// the text as example.
pub open spec fn raw_content_spec(s: Seq<char>, parsed: Option<JsonV>) -> (Option<Seq<char>>, Option<SchemaV>, JsonV) {
    match parsed {
        Some(j) => if is_structured(j) {
            (Some(json_type()), Some(infer_spec(j)), j)
        } else {
            (Some(text_type()), None, JsonV::Str(s))
        },
        None => (Some(text_type()), None, JsonV::Str(s)),
    }
}

/// The view of an optional text.
pub open spec fn opt_text(t: Option<String>) -> Option<Seq<char>> {
    match t {
        Some(s) => Some(s@),
        None => None,
    }
}

/// The view of an optional schema.
pub open spec fn opt_schema(t: Option<Schema>) -> Option<SchemaV> {
    match t {
        Some(s) => Some(s@),
        None => None,
    }
}

/// Classifies a raw body, given what it reads as JSON.
pub fn classify_raw(text: String, parsed: Option<Json>) -> (r: (Option<String>, Option<Schema>, Json))
    ensures
        (opt_text(r.0), opt_schema(r.1), r.2@) == raw_content_spec(text@, match parsed {
            Some(j) => Some(j@),
            None => None,
        }),
{
    match parsed {
        Some(v) => {
            let structured = match &v {
                Json::Object(_) => true,
                Json::Array(_) => true,
                _ => false,
            };
            if structured {
                let schema = generate_schema(&v);
                proof {
                    reveal_strlit("application/json");
                }
                let ct = "application/json".to_owned();
                assert(ct@ =~= json_type());
                (Some(ct), Some(schema), v)
            } else {
                proof {
                    reveal_strlit("text/plain");
                }
                let ct = "text/plain".to_owned();
                assert(ct@ =~= text_type());
                (Some(ct), None, Json::Str(text))
            }
        },
        None => {
            proof {
                reveal_strlit("text/plain");
            }
            let ct = "text/plain".to_owned();
            assert(ct@ =~= text_type());
            (Some(ct), None, Json::Str(text))
        },
    }
}

/// Classifies a raw body, reading it as JSON with serde_json.
pub fn raw_content(text: String) -> (r: (Option<String>, Option<Schema>, Json))
    ensures
        (opt_text(r.0), opt_schema(r.1), r.2@) == raw_content_spec(text@, json_parse_of(text@)),
{
    let parsed = parse_json(text.as_str());
    classify_raw(text, parsed)
}

/// Whether a status code counts as success: 200 to 208, or 226.
pub open spec fn is_success_code(k: Seq<char>) -> bool {
    k.len() == 3 && k[0] == '2' && ((k[1] == '0' && '0' <= k[2] && k[2] <= '8') || (k[1] == '2' && k[2] == '6'))
}

/// The codes of a response map, in order.
pub open spec fn response_codes(rs: Seq<(String, Response)>) -> Seq<Seq<char>> {
    Seq::new(rs.len(), |i: int| rs[i].0@)
}

/// Whether a status code counts as success.
pub fn is_success(code: &String) -> (r: bool)
    ensures
        r == is_success_code(code@),
{
    let c = chars_of(code.as_str());
    c.len() == 3 && c[0] == '2' && ((c[1] == '0' && '0' <= c[2] && c[2] <= '8') || (c[1] == '2' && c[2] == '6'))
}

/// Where no response is a success, adds a `200` response with an empty description;
/// the responses there are kept as they are.
pub fn ensure_success_response(responses: &mut Vec<(String, Response)>)
    ensures
        (exists|k: int| 0 <= k < old(responses)@.len() && is_success_code(#[trigger] old(responses)@[k].0@))
            ==> final(responses)@ == old(responses)@,
        !(exists|k: int| 0 <= k < old(responses)@.len() && is_success_code(#[trigger] old(responses)@[k].0@))
            ==> {
                &&& final(responses)@.len() == old(responses)@.len() + 1
                &&& final(responses)@.subrange(0, old(responses)@.len() as int) == old(responses)@
                &&& final(responses)@.last().0@ == seq!['2', '0', '0']
                &&& final(responses)@.last().1.description matches Some(d) && d@.len() == 0
                &&& final(responses)@.last().1.content is None
            },
{
    let mut i: usize = 0;
    while i < responses.len()
        invariant
            i <= responses.len(),
            forall|k: int| 0 <= k < i ==> !is_success_code(#[trigger] responses@[k].0@),
        decreases responses.len() - i,
    {
        if is_success(&responses[i].0) {
            return;
        }
        i = i + 1;
    }
    proof {
        reveal_strlit("200");
        reveal_strlit("");
    }
    let code = "200".to_owned();
    assert(code@ =~= seq!['2', '0', '0']);
    let description = "".to_owned();
    let ghost before = responses@;
    responses.push((code, Response { description: Some(description), content: None }));
    assert(responses@.subrange(0, before.len() as int) =~= before);
}

} // verus!
