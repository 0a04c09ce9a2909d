use vstd::prelude::*;
use crate::json::{Json, JsonV};
use crate::model::{Parameter, QueryParam, Variable};
use crate::resolve::{brace_from, resolve_spec};
use crate::schema::{Schema, SchemaType, SchemaV};
use crate::text::chars_of;
use crate::vars::{VariableTable, VAR_REPLACE_CREDITS};

verus! {

/// Whether a path template `{name}` starts at `i`.
pub open spec fn template_var_at(s: Seq<char>, i: int) -> bool {
    0 <= i < s.len() && s[i] == '{' && brace_from(s, i + 1) < s.len() && s[brace_from(s, i + 1)] == '}'
}

/// The names of the path templates `{name}` of `s` from `i` on, left to right.
pub open spec fn template_names_from(s: Seq<char>, i: int) -> Seq<Seq<char>>
    decreases s.len() - i via template_names_decreases
{
    if i < 0 || i >= s.len() {
        Seq::empty()
    } else if template_var_at(s, i) {
        seq![s.subrange(i + 1, brace_from(s, i + 1))] + template_names_from(s, brace_from(s, i + 1) + 1)
    } else {
        template_names_from(s, i + 1)
    }
}

#[via_fn]
proof fn template_names_decreases(s: Seq<char>, i: int) {
    if 0 <= i < s.len() && template_var_at(s, i) {
        crate::resolve::lemma_brace_from_bounds(s, i + 1);
    }
}

/// The names of the path templates of all segments, segment after segment.
pub open spec fn segment_names(segs: Seq<Seq<char>>) -> Seq<Seq<char>>
    decreases segs.len(),
{
    if segs.len() == 0 {
        Seq::empty()
    } else {
        segment_names(segs.drop_last()) + template_names_from(segs.last(), 0)
    }
}

/// The names of the path templates of `s`.
fn template_names(s: &Vec<char>) -> (r: Vec<Vec<char>>)
    ensures
        r@.len() == template_names_from(s@, 0).len(),
        forall|k: int| 0 <= k < r@.len() ==> #[trigger] r@[k]@ == template_names_from(s@, 0)[k],
{
    let mut out: Vec<Vec<char>> = Vec::new();
    let ghost outv: Seq<Seq<char>> = Seq::empty();
    let mut i: usize = 0;
    while i < s.len()
        invariant
            i <= s.len(),
            out@.len() == outv.len(),
            forall|k: int| 0 <= k < out@.len() ==> #[trigger] out@[k]@ == outv[k],
            outv + template_names_from(s@, i as int) == template_names_from(s@, 0),
        decreases s.len() - i,
    {
        if s[i] == '{' {
            let mut j: usize = i + 1;
            while j < s.len() && s[j] != '{' && s[j] != '}'
                invariant
                    i < j <= s.len(),
                    brace_from(s@, i + 1) == brace_from(s@, j as int),
                decreases s.len() - j,
            {
                j = j + 1;
            }
            if j < s.len() && s[j] == '}' {
                let mut name: Vec<char> = Vec::new();
                let mut k: usize = i + 1;
                while k < j
                    invariant
                        i + 1 <= k <= j < s.len(),
                        name@ == s@.subrange(i + 1, k as int),
                    decreases j - k,
                {
                    name.push(s[k]);
                    k = k + 1;
                    assert(name@ =~= s@.subrange(i + 1, k as int));
                }
                proof {
                    assert(outv + (seq![name@] + template_names_from(s@, j + 1)) =~= outv.push(name@) + template_names_from(s@, j + 1));
                    outv = outv.push(name@);
                }
                out.push(name);
                i = j + 1;
            } else {
                i = i + 1;
            }
        } else {
            i = i + 1;
        }
    }
    assert(outv + template_names_from(s@, i as int) =~= outv);
    out
}

/// The first hint under `name`.
pub open spec fn hint_for(hints: Seq<Variable>, name: Seq<char>) -> Option<Variable>
    decreases hints.len(),
{
    if hints.len() == 0 {
        None
    } else if hints[0].key matches Some(k) && k@ == name {
        Some(hints[0])
    } else {
        hint_for(hints.drop_first(), name)
    }
}

/// The example of a parameter: its resolved value, where that value is a string.
pub open spec fn hint_example(t: Seq<(Seq<char>, JsonV)>, h: Option<Variable>) -> Option<JsonV> {
    match h {
        Some(v) => match v.value {
            Some(Json::Str(s)) => Some(JsonV::Str(resolve_spec(t, s@, 20))),
            _ => None,
        },
        None => None,
    }
}

/// What a string parameter's schema is: type string, with `example`.
pub open spec fn string_schema(example: Option<JsonV>) -> SchemaV {
    SchemaV { ty: Some(SchemaType::String), nullable: None, example, properties: None, items: None }
}

/// Whether `p` is the path parameter for `name`, with what the hints give.
pub open spec fn is_path_param(p: Parameter, name: Seq<char>, hints: Option<Vec<Variable>>, t: Seq<(Seq<char>, JsonV)>) -> bool {
    let h = match hints {
        Some(hs) => hint_for(hs@, name),
        None => None,
    };
    &&& p.name@ == name
    &&& p.location@ == seq!['p', 'a', 't', 'h']
    &&& p.required == Some(true)
    &&& p.description == (match h {
        Some(v) => v.description,
        None => None,
    })
    &&& p.schema@ == string_schema(hint_example(t, h))
}

/// Whether `p` is the query parameter for `q`.
pub open spec fn is_query_param(p: Parameter, q: QueryParam, t: Seq<(Seq<char>, JsonV)>) -> bool {
    &&& p.name@ == (match q.key {
        Some(k) => k@,
        None => Seq::empty(),
    })
    &&& p.location@ == seq!['q', 'u', 'e', 'r', 'y']
    &&& p.required is None
    &&& p.description == q.description
    &&& p.schema@ == string_schema(match q.value {
        Some(v) => Some(JsonV::Str(resolve_spec(t, v@, 20))),
        None => None,
    })
}

/// The first hint whose key is `name`.
fn find_hint<'a>(hints: &'a Vec<Variable>, name: &String) -> (r: Option<&'a Variable>)
    ensures
        match r {
            Some(v) => hint_for(hints@, name@) == Some(*v),
            None => hint_for(hints@, name@) is None,
        },
{
    let mut i: usize = 0;
    assert(hints@.subrange(0, hints@.len() as int) =~= hints@);
    while i < hints.len()
        invariant
            i <= hints.len(),
            hint_for(hints@, name@) == hint_for(hints@.subrange(i as int, hints@.len() as int), name@),
        decreases hints.len() - i,
    {
        assert(hints@.subrange(i as int, hints@.len() as int)[0] == hints@[i as int]);
        match &hints[i].key {
            Some(k) => {
                if *k == *name {
                    return Some(&hints[i]);
                }
            },
            None => {},
        }
        assert(hints@.subrange(i as int, hints@.len() as int).drop_first() =~= hints@.subrange(i + 1, hints@.len() as int));
        i = i + 1;
    }
    None
}

/// A copy of an optional text.
pub fn copy_text(t: &Option<String>) -> (r: Option<String>)
    ensures
        r == *t,
{
    match t {
        Some(s) => Some(s.clone()),
        None => None,
    }
}

/// A string schema with the given example text.
fn string_schema_exec(example: Option<String>) -> (r: Schema)
    ensures
        r@ == string_schema(match example {
            Some(s) => Some(JsonV::Str(s@)),
            None => None,
        }),
{
    let mut schema = Schema::new();
    schema.schema_type = Some(SchemaType::String);
    schema.example = match example {
        Some(s) => Some(Json::Str(s)),
        None => None,
    };
    schema
}

/// The names of the path templates of each segment, as character sequences.
pub open spec fn segments_view(segs: Seq<String>) -> Seq<Seq<char>> {
    Seq::new(segs.len(), |i: int| segs[i]@)
}

impl VariableTable {
    /// One required string parameter in the path per template `{name}` of the segments,
    /// in order and without merging repeated names; description and example come from
    /// the first hint under the name. `None` where there is no template.
    pub fn generate_path_parameters(&self, segments: &Vec<String>, hints: &Option<Vec<Variable>>) -> (r: Option<Vec<Parameter>>)
        ensures
            match r {
                None => segment_names(segments_view(segments@)).len() == 0,
                Some(ps) => {
                    let names = segment_names(segments_view(segments@));
                    &&& names.len() > 0
                    &&& ps@.len() == names.len()
                    &&& forall|k: int| 0 <= k < ps@.len() ==> #[trigger] is_path_param(ps@[k], names[k], *hints, self@)
                },
            },
    {
        let mut params: Vec<Parameter> = Vec::new();
        let mut i: usize = 0;
        while i < segments.len()
            invariant
                i <= segments.len(),
                params@.len() == segment_names(segments_view(segments@).subrange(0, i as int)).len(),
                forall|k: int| 0 <= k < params@.len() ==> #[trigger] is_path_param(params@[k], segment_names(segments_view(segments@).subrange(0, i as int))[k], *hints, self@),
            decreases segments.len() - i,
        {
            let ghost prev = segment_names(segments_view(segments@).subrange(0, i as int));
            proof {
                let sv = segments_view(segments@).subrange(0, i + 1);
                assert(sv.drop_last() =~= segments_view(segments@).subrange(0, i as int));
                assert(sv.last() == segments@[i as int]@);
            }
            let chars = chars_of(segments[i].as_str());
            let names = template_names(&chars);
            let mut n: usize = 0;
            while n < names.len()
                invariant
                    n <= names.len(),
                    i < segments.len(),
                    chars@ == segments@[i as int]@,
                    names@.len() == template_names_from(chars@, 0).len(),
                    forall|k: int| 0 <= k < names@.len() ==> #[trigger] names@[k]@ == template_names_from(chars@, 0)[k],
                    prev == segment_names(segments_view(segments@).subrange(0, i as int)),
                    params@.len() == prev.len() + n,
                    forall|k: int| 0 <= k < params@.len() ==> #[trigger] is_path_param(params@[k], (prev + template_names_from(chars@, 0))[k], *hints, self@),
                decreases names.len() - n,
            {
                let name = crate::text::string_of(&names[n]);
                let mut description: Option<String> = None;
                let mut example: Option<String> = None;
                match hints {
                    Some(hs) => {
                        match find_hint(hs, &name) {
                            Some(h) => {
                                description = copy_text(&h.description);
                                match &h.value {
                                    Some(Json::Str(v)) => {
                                        example = Some(self.resolve_variables(v.as_str(), VAR_REPLACE_CREDITS));
                                    },
                                    _ => {},
                                }
                            },
                            None => {},
                        }
                    },
                    None => {},
                }
                let p = Parameter {
                    name,
                    location: "path".to_owned(),
                    required: Some(true),
                    description,
                    schema: string_schema_exec(example),
                };
                proof {
                    reveal_strlit("path");
                    assert(p.location@ =~= seq!['p', 'a', 't', 'h']);
                    assert(names@[n as int]@ == template_names_from(chars@, 0)[n as int]);
                    assert((prev + template_names_from(chars@, 0))[params@.len() as int] == template_names_from(chars@, 0)[n as int]);
                }
                params.push(p);
                n = n + 1;
            }
            proof {
                assert(segment_names(segments_view(segments@).subrange(0, i + 1)) =~= prev + template_names_from(chars@, 0));
            }
            i = i + 1;
        }
        assert(segments_view(segments@).subrange(0, segments.len() as int) =~= segments_view(segments@));
        if params.len() > 0 {
            Some(params)
        } else {
            None
        }
    }

    /// One string parameter in the query per entry, with its description and its value,
    /// resolved, as example. `None` where there is no entry.
    pub fn generate_query_parameters(&self, query_params: &Vec<QueryParam>) -> (r: Option<Vec<Parameter>>)
        ensures
            match r {
                None => query_params@.len() == 0,
                Some(ps) => {
                    &&& query_params@.len() > 0
                    &&& ps@.len() == query_params@.len()
                    &&& forall|k: int| 0 <= k < ps@.len() ==> #[trigger] is_query_param(ps@[k], query_params@[k], self@)
                },
            },
    {
        let mut params: Vec<Parameter> = Vec::new();
        let mut i: usize = 0;
        while i < query_params.len()
            invariant
                i <= query_params.len(),
                params@.len() == i,
                forall|k: int| 0 <= k < i ==> #[trigger] is_query_param(params@[k], query_params@[k], self@),
            decreases query_params.len() - i,
        {
            let qp = &query_params[i];
            let name = match &qp.key {
                Some(k) => k.clone(),
                None => String::new(),
            };
            let example = match &qp.value {
                Some(v) => Some(self.resolve_variables(v.as_str(), VAR_REPLACE_CREDITS)),
                None => None,
            };
            let p = Parameter {
                name,
                location: "query".to_owned(),
                required: None,
                description: copy_text(&qp.description),
                schema: string_schema_exec(example),
            };
            proof {
                reveal_strlit("query");
                assert(p.location@ =~= seq!['q', 'u', 'e', 'r', 'y']);
            }
            params.push(p);
            i = i + 1;
        }
        if params.len() > 0 {
            Some(params)
        } else {
            None
        }
    }
}

} // verus!
