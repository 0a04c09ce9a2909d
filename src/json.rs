use vstd::prelude::*;

verus! {

/// A JSON document held as plain values. A number keeps its textual form.
pub enum Json {
    Null,
    Bool(bool),
    Number(String),
    Str(String),
    Array(Vec<Json>),
    Object(Vec<(String, Json)>),
}

/// The mathematical model of a JSON document.
pub enum JsonV {
    Null,
    Bool(bool),
    Number(Seq<char>),
    Str(Seq<char>),
    Array(Seq<JsonV>),
    Object(Seq<(Seq<char>, JsonV)>),
}

impl Json {
    pub open spec fn view(&self) -> JsonV
        decreases self,
    {
        match self {
            Json::Null => JsonV::Null,
            Json::Bool(b) => JsonV::Bool(*b),
            Json::Number(n) => JsonV::Number(n@),
            Json::Str(s) => JsonV::Str(s@),
            Json::Array(a) => JsonV::Array(
                Seq::new(a.len() as nat, |i: int| if 0 <= i < a.len() { a@[i].view() } else { JsonV::Null }),
            ),
            Json::Object(m) => JsonV::Object(
                Seq::new(m.len() as nat, |i: int| if 0 <= i < m.len() { (m@[i].0@, m@[i].1.view()) } else { (Seq::empty(), JsonV::Null) }),
            ),
        }
    }
}

impl Json {
    /// A copy of the document, equal to it in the model.
    pub fn deep_copy(&self) -> (r: Json)
        ensures
            r@ == self@,
        decreases self@,
    {
        match self {
            Json::Null => Json::Null,
            Json::Bool(b) => Json::Bool(*b),
            Json::Number(n) => Json::Number(n.clone()),
            Json::Str(s) => Json::Str(s.clone()),
            Json::Array(a) => {
                let mut v: Vec<Json> = Vec::new();
                let mut i: usize = 0;
                while i < a.len()
                    invariant
                        i <= a.len(),
                        *self == Json::Array(*a),
                        v@.len() == i,
                        forall|k: int| 0 <= k < i ==> #[trigger] v@[k]@ == a@[k]@,
                    decreases a.len() - i,
                {
                    proof {
                        assert(self@->Array_0[i as int] == a@[i as int]@);
                    }
                    let c = a[i].deep_copy();
                    v.push(c);
                    i = i + 1;
                }
                let r = Json::Array(v);
                assert(r@->Array_0.len() == v.len());
                assert(forall|k: int| 0 <= k < v.len() ==> r@->Array_0[k] == #[trigger] v@[k]@);
                assert forall|k: int| 0 <= k < v.len() implies r@->Array_0[k] == self@->Array_0[k] by {
                    assert(v@[k]@ == a@[k]@);
                }
                assert(r@->Array_0 =~= self@->Array_0);
                r
            },
            Json::Object(m) => {
                let mut v: Vec<(String, Json)> = Vec::new();
                let mut i: usize = 0;
                while i < m.len()
                    invariant
                        i <= m.len(),
                        *self == Json::Object(*m),
                        v@.len() == i,
                        forall|k: int| 0 <= k < i ==> #[trigger] v@[k].0@ == m@[k].0@ && v@[k].1@ == m@[k].1@,
                    decreases m.len() - i,
                {
                    let key = m[i].0.clone();
                    proof {
                        assert(self@->Object_0[i as int] == (m@[i as int].0@, m@[i as int].1@));
                        assert(decreases_to!(self@->Object_0 => self@->Object_0[i as int]));
                        let ghost t = self@->Object_0[i as int];
                        assert(decreases_to!(t => t.1));
                        assert(decreases_to!(self@ => m@[i as int].1@));
                    }
                    let c = m[i].1.deep_copy();
                    v.push((key, c));
                    i = i + 1;
                }
                let r = Json::Object(v);
                assert(r@->Object_0 =~= self@->Object_0);
                r
            },
        }
    }
}

/// What serde_json makes of a text: the document it parses, or `None` where the text is not JSON.
pub uninterp spec fn json_parse_of(s: Seq<char>) -> Option<JsonV>;

#[verifier::external_type_specification]
#[verifier::external_body]
pub struct ExJsonValue(serde_json::Value);

/// Relies on serde_json::from_str: the result depends on the text alone.
#[verifier::external_body]
pub(crate) fn parse_json(s: &str) -> (r: Option<Json>)
    ensures
        match r {
            Some(j) => json_parse_of(s@) == Some(j@),
            None => json_parse_of(s@) is None,
        },
{
    match serde_json::from_str::<serde_json::Value>(s) {
        Ok(v) => Some(json_from_value(&v)),
        Err(_) => None,
    }
}

/// Moves a document parsed by serde_json into `Json`, variant for variant;
/// a number keeps the text that serde_json prints for it.
#[verifier::external_body]
fn json_from_value(v: &serde_json::Value) -> (r: Json) {
    match v {
        serde_json::Value::Null => Json::Null,
        serde_json::Value::Bool(b) => Json::Bool(*b),
        serde_json::Value::Number(n) => Json::Number(n.to_string()),
        serde_json::Value::String(s) => Json::Str(s.clone()),
        serde_json::Value::Array(a) => Json::Array(a.iter().map(json_from_value).collect()),
        serde_json::Value::Object(m) => {
            Json::Object(m.iter().map(|(k, x)| (k.clone(), json_from_value(x))).collect())
        },
    }
}

} // verus!
