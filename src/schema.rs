use vstd::prelude::*;
use crate::json::{Json, JsonV};

verus! {

/// The declared type of a schema.
#[derive(PartialEq, Eq, Structural, Clone, Copy, Debug)]
pub enum SchemaType {
    Object,
    Array,
    String,
    Number,
    Boolean,
}

/// A structural schema inferred from example payloads.
pub struct Schema {
    pub schema_type: Option<SchemaType>,
    pub nullable: Option<bool>,
    pub example: Option<Json>,
    pub properties: Option<Vec<(String, Schema)>>,
    pub items: Option<Box<Schema>>,
}

/// The mathematical model of a schema.
pub struct SchemaV {
    pub ty: Option<SchemaType>,
    pub nullable: Option<bool>,
    pub example: Option<JsonV>,
    pub properties: Option<Seq<(Seq<char>, SchemaV)>>,
    pub items: Option<Box<SchemaV>>,
}

impl Schema {
    pub open spec fn view(&self) -> SchemaV
        decreases self,
    {
        SchemaV {
            ty: self.schema_type,
            nullable: self.nullable,
            example: match self.example {
                Some(j) => Some(j@),
                None => None,
            },
            properties: match self.properties {
                Some(p) => Some(
                    Seq::new(p.len() as nat, |i: int| if 0 <= i < p.len() { (p@[i].0@, p@[i].1.view()) } else { (Seq::empty(), SchemaV::empty()) }),
                ),
                None => None,
            },
            items: match self.items {
                Some(b) => Some(Box::new((*b).view())),
                None => None,
            },
        }
    }
}

impl SchemaV {
    pub open spec fn empty() -> SchemaV {
        SchemaV { ty: None, nullable: None, example: None, properties: None, items: None }
    }
}

/// The schema of a scalar example: its type, and the value as example.
pub open spec fn scalar_spec(t: SchemaType, j: JsonV) -> SchemaV {
    SchemaV { ty: Some(t), nullable: None, example: Some(j), properties: None, items: None }
}

/// The schema that one example value describes.
pub open spec fn infer_spec(j: JsonV) -> SchemaV
    decreases j,
{
    match j {
        JsonV::Null => SchemaV { ty: None, nullable: Some(true), example: Some(j), properties: None, items: None },
        JsonV::Bool(_) => scalar_spec(SchemaType::Boolean, j),
        JsonV::Number(_) => scalar_spec(SchemaType::Number, j),
        JsonV::Str(_) => scalar_spec(SchemaType::String, j),
        JsonV::Object(m) => SchemaV {
            ty: Some(SchemaType::Object),
            nullable: None,
            example: None,
            properties: Some(
                Seq::new(m.len(), |i: int| if 0 <= i < m.len() { (m[i].0, infer_spec(m[i].1)) } else { (Seq::empty(), SchemaV::empty()) }),
            ),
            items: None,
        },
        JsonV::Array(a) => SchemaV {
            ty: Some(SchemaType::Array),
            nullable: None,
            example: None,
            properties: None,
            items: if a.len() == 0 { None } else { Some(Box::new(merge_elems(a))) },
        },
    }
}

/// The schemas of the elements of a non-empty array, merged from the first element on.
pub open spec fn merge_elems(a: Seq<JsonV>) -> SchemaV
    decreases a,
{
    if a.len() == 0 {
        SchemaV::empty()
    } else if a.len() == 1 {
        infer_spec(a[0])
    } else {
        merge_spec(merge_elems(a.subrange(0, a.len() - 1)), infer_spec(a[a.len() - 1]))
    }
}

/// The first schema under key `k` in `q`.
pub open spec fn lookup(q: Seq<(Seq<char>, SchemaV)>, k: Seq<char>) -> Option<SchemaV>
    decreases q.len(),
{
    if q.len() == 0 {
        None
    } else if q[0].0 == k {
        Some(q[0].1)
    } else {
        lookup(q.drop_first(), k)
    }
}

/// Nullability of a merge: either side's flag where only one declares it, `true` where they disagree.
pub open spec fn merge_nullable(a: Option<bool>, b: Option<bool>) -> Option<bool> {
    match (a, b) {
        (None, y) => y,
        (Some(x), None) => Some(x),
        (Some(x), Some(y)) => if x == y { Some(x) } else { Some(true) },
    }
}

/// The type of a merge: the first side's, or the second's where the first declares none.
pub open spec fn merge_type(a: Option<SchemaType>, b: Option<SchemaType>) -> Option<SchemaType> {
    if a is None { b } else { a }
}

/// The merge of two schemas of one field: each property of `a` is merged with the
/// property of `b` under the same name, where there is one.
pub open spec fn merge_spec(a: SchemaV, b: SchemaV) -> SchemaV
    decreases a,
{
    SchemaV {
        ty: merge_type(a.ty, b.ty),
        nullable: merge_nullable(a.nullable, b.nullable),
        example: a.example,
        properties: if merge_type(a.ty, b.ty) == Some(SchemaType::Object) && a.properties is Some
            && b.properties is Some {
            let p = a.properties->Some_0;
            let q = b.properties->Some_0;
            Some(
                Seq::new(p.len(), |i: int| if 0 <= i < p.len() {
                    (p[i].0, match lookup(q, p[i].0) {
                        Some(s) => merge_spec(p[i].1, s),
                        None => p[i].1,
                    })
                } else {
                    (Seq::empty(), SchemaV::empty())
                }),
            )
        } else {
            a.properties
        },
        items: a.items,
    }
}

impl Schema {
    /// A schema with nothing declared.
    pub fn new() -> (r: Schema)
        ensures
            r@ == SchemaV::empty(),
    {
        Schema { schema_type: None, nullable: None, example: None, properties: None, items: None }
    }

    /// A copy of the schema, equal to it in the model.
    pub fn deep_copy(&self) -> (r: Schema)
        ensures
            r@ == self@,
        decreases self@,
    {
        let example = match &self.example {
            Some(j) => Some(j.deep_copy()),
            None => None,
        };
        let items = match &self.items {
            Some(b) => {
                assert(self@.items == Some(Box::new((*b)@)));
                assert(decreases_to!(self@ => self@.items));
                let ghost inner = self@.items->Some_0;
                assert(decreases_to!(self@.items => inner));
                assert(*inner == (*b)@);
                Some(Box::new(b.deep_copy()))
            },
            None => None,
        };
        let properties = match &self.properties {
            Some(p) => {
                let mut v: Vec<(String, Schema)> = Vec::new();
                let mut i: usize = 0;
                while i < p.len()
                    invariant
                        i <= p.len(),
                        self.properties == Some(*p),
                        v@.len() == i,
                        forall|k: int| 0 <= k < i ==> #[trigger] v@[k].0@ == p@[k].0@ && v@[k].1@ == p@[k].1@,
                    decreases p.len() - i,
                {
                    proof {
                        let ghost ps = self@.properties->Some_0;
                        assert(ps[i as int] == (p@[i as int].0@, p@[i as int].1@));
                        let ghost t = ps[i as int];
                        assert(decreases_to!(t => t.1));
                        assert(decreases_to!(self@ => p@[i as int].1@));
                    }
                    let key = p[i].0.clone();
                    let c = p[i].1.deep_copy();
                    v.push((key, c));
                    i = i + 1;
                }
                Some(v)
            },
            None => None,
        };
        let r = Schema {
            schema_type: self.schema_type,
            nullable: self.nullable,
            example,
            properties,
            items,
        };
        assert(r@.properties == self@.properties) by {
            if self.properties is Some {
                assert(r@.properties->Some_0 =~= self@.properties->Some_0);
            }
        }
        r
    }
}

/// Derives the schema that one example value describes.
pub fn generate_schema(value: &Json) -> (r: Schema)
    ensures
        r@ == infer_spec(value@),
    decreases value@,
{
    match value {
        Json::Object(m) => {
            let mut props: Vec<(String, Schema)> = Vec::new();
            let mut i: usize = 0;
            while i < m.len()
                invariant
                    i <= m.len(),
                    *value == Json::Object(*m),
                    props@.len() == i,
                    forall|k: int| 0 <= k < i ==> #[trigger] props@[k].0@ == m@[k].0@ && props@[k].1@ == infer_spec(m@[k].1@),
                decreases m.len() - i,
            {
                proof {
                    assert(value@->Object_0[i as int] == (m@[i as int].0@, m@[i as int].1@));
                    let ghost t = value@->Object_0[i as int];
                    assert(decreases_to!(t => t.1));
                }
                let key = m[i].0.clone();
                let sub = generate_schema(&m[i].1);
                props.push((key, sub));
                i = i + 1;
            }
            let mut schema = Schema::new();
            schema.schema_type = Some(SchemaType::Object);
            schema.properties = Some(props);
            assert(schema@.properties->Some_0 =~= infer_spec(value@).properties->Some_0);
            schema
        },
        Json::Array(a) => {
            let mut schema = Schema::new();
            schema.schema_type = Some(SchemaType::Array);
            if a.len() > 0 {
                let ghost av = value@->Array_0;
                assert(av[0] == a@[0]@);
                let mut cur = generate_schema(&a[0]);
                assert(av.subrange(0, 1)[0] == av[0]);
                let mut n: usize = 1;
                while n < a.len()
                    invariant
                        1 <= n <= a.len(),
                        *value == Json::Array(*a),
                        av == value@->Array_0,
                        cur@ == merge_elems(av.subrange(0, n as int)),
                    decreases a.len() - n,
                {
                    assert(av[n as int] == a@[n as int]@);
                    let next = generate_schema(&a[n]);
                    cur = merge_schemas(&cur, &next);
                    proof {
                        let s1 = av.subrange(0, n + 1);
                        assert(s1.subrange(0, s1.len() - 1) =~= av.subrange(0, n as int));
                        assert(s1[s1.len() - 1] == av[n as int]);
                    }
                    n = n + 1;
                }
                assert(av.subrange(0, a.len() as int) =~= av);
                schema.items = Some(Box::new(cur));
            }
            schema
        },
        Json::Str(_) => {
            let mut schema = Schema::new();
            schema.schema_type = Some(SchemaType::String);
            schema.example = Some(value.deep_copy());
            schema
        },
        Json::Number(_) => {
            let mut schema = Schema::new();
            schema.schema_type = Some(SchemaType::Number);
            schema.example = Some(value.deep_copy());
            schema
        },
        Json::Bool(_) => {
            let mut schema = Schema::new();
            schema.schema_type = Some(SchemaType::Boolean);
            schema.example = Some(value.deep_copy());
            schema
        },
        Json::Null => {
            let mut schema = Schema::new();
            schema.nullable = Some(true);
            schema.example = Some(value.deep_copy());
            schema
        },
    }
}

/// The first entry of `q` under the key `k`, where there is one.
fn find_property(q: &Vec<(String, Schema)>, k: &String, Ghost(qv): Ghost<Seq<(Seq<char>, SchemaV)>>) -> (r: Option<usize>)
    requires
        qv.len() == q.len(),
        forall|j: int| 0 <= j < q.len() ==> #[trigger] qv[j] == (q@[j].0@, q@[j].1@),
    ensures
        match r {
            Some(i) => i < q.len() && lookup(qv, k@) == Some(q@[i as int].1@),
            None => lookup(qv, k@) is None,
        },
{
    let mut i: usize = 0;
    assert(qv.subrange(0, qv.len() as int) =~= qv);
    while i < q.len()
        invariant
            i <= q.len(),
            qv.len() == q.len(),
            forall|j: int| 0 <= j < q.len() ==> #[trigger] qv[j] == (q@[j].0@, q@[j].1@),
            lookup(qv, k@) == lookup(qv.subrange(i as int, qv.len() as int), k@),
        decreases q.len() - i,
    {
        assert(qv.subrange(i as int, qv.len() as int)[0] == qv[i as int]);
        if q[i].0 == *k {
            return Some(i);
        }
        assert(qv.subrange(i as int, qv.len() as int).drop_first() =~= qv.subrange(i + 1, qv.len() as int));
        i = i + 1;
    }
    None
}

/// Unifies two schemas observed for one field in different examples.
pub fn merge_schemas(first: &Schema, new: &Schema) -> (r: Schema)
    ensures
        r@ == merge_spec(first@, new@),
    decreases first@,
{
    let mut cloned = first.deep_copy();
    if cloned.nullable.is_none() && new.nullable.is_some() {
        cloned.nullable = new.nullable;
    }
    if let Some(cloned_nullable) = cloned.nullable {
        if let Some(new_nullable) = new.nullable {
            if new_nullable != cloned_nullable {
                cloned.nullable = Some(true);
            }
        }
    }
    if cloned.schema_type.is_none() && new.schema_type.is_some() {
        cloned.schema_type = new.schema_type;
    }
    let is_object = match cloned.schema_type {
        Some(SchemaType::Object) => true,
        _ => false,
    };
    if is_object {
        if let Some(properties) = &first.properties {
            if let Some(new_properties) = &new.properties {
                let ghost pv = first@.properties->Some_0;
                let ghost qv = new@.properties->Some_0;
                let mut v: Vec<(String, Schema)> = Vec::new();
                let mut i: usize = 0;
                while i < properties.len()
                    invariant
                        i <= properties.len(),
                        first.properties == Some(*properties),
                        new.properties == Some(*new_properties),
                        pv == first@.properties->Some_0,
                        qv == new@.properties->Some_0,
                        v@.len() == i,
                        forall|k: int| 0 <= k < i ==> #[trigger] v@[k].0@ == pv[k].0 && v@[k].1@ == (match lookup(qv, pv[k].0) {
                            Some(s) => merge_spec(pv[k].1, s),
                            None => pv[k].1,
                        }),
                    decreases properties.len() - i,
                {
                    assert(pv[i as int] == (properties@[i as int].0@, properties@[i as int].1@));
                    assert forall|j: int| 0 <= j < new_properties.len() implies #[trigger] qv[j] == (new_properties@[j].0@, new_properties@[j].1@) by {}
                    let key = properties[i].0.clone();
                    let merged = match find_property(new_properties, &properties[i].0, Ghost(qv)) {
                        Some(j) => {
                            proof {
                                let ghost t = pv[i as int];
                                assert(decreases_to!(t => t.1));
                                assert(decreases_to!(first@ => properties@[i as int].1@));
                            }
                            merge_schemas(&properties[i].1, &new_properties[j].1)
                        },
                        None => properties[i].1.deep_copy(),
                    };
                    v.push((key, merged));
                    i = i + 1;
                }
                cloned.properties = Some(v);
                assert(cloned@.properties->Some_0 =~= merge_spec(first@, new@).properties->Some_0);
            }
        }
    }
    cloned
}

/// Whether every property list of the schema, at every depth, names each property once.
pub open spec fn unique_keys(a: SchemaV) -> bool
    decreases a,
{
    &&& match a.properties {
        Some(p) => {
            &&& forall|i: int, j: int| 0 <= i < j < p.len() ==> #[trigger] p[i].0 != #[trigger] p[j].0
            &&& forall|i: int| 0 <= i < p.len() ==> unique_keys(#[trigger] p[i].1)
        },
        None => true,
    }
    &&& match a.items {
        Some(b) => unique_keys(*b),
        None => true,
    }
}

proof fn lemma_lookup_unique(q: Seq<(Seq<char>, SchemaV)>, i: int)
    requires
        0 <= i < q.len(),
        forall|a: int, b: int| 0 <= a < b < q.len() ==> #[trigger] q[a].0 != #[trigger] q[b].0,
    ensures
        lookup(q, q[i].0) == Some(q[i].1),
    decreases i,
{
    if i > 0 {
        let d = q.drop_first();
        assert(q[0].0 != q[i].0);
        assert(d[i - 1] == q[i]);
        assert forall|a: int, b: int| 0 <= a < b < d.len() implies #[trigger] d[a].0 != #[trigger] d[b].0 by {
            assert(d[a] == q[a + 1] && d[b] == q[b + 1]);
        }
        lemma_lookup_unique(d, i - 1);
    }
}

/// Merging a schema with itself changes nothing, where each property list names each
/// property once.
pub proof fn lemma_merge_self(a: SchemaV)
    requires
        unique_keys(a),
    ensures
        merge_spec(a, a) == a,
    decreases a,
{
    let m = merge_spec(a, a);
    if merge_type(a.ty, a.ty) == Some(SchemaType::Object) && a.properties is Some {
        let p = a.properties->Some_0;
        assert forall|i: int| 0 <= i < p.len() implies #[trigger] m.properties->Some_0[i] == p[i] by {
            lemma_lookup_unique(p, i);
            assert(decreases_to!(a => a.properties));
            assert(decreases_to!(a.properties => p));
            let t = p[i];
            assert(decreases_to!(p => t));
            assert(decreases_to!(t => t.1));
            assert(unique_keys(p[i].1));
            lemma_merge_self(p[i].1);
        }
        assert(m.properties->Some_0 =~= p);
    }
    assert(merge_nullable(a.nullable, a.nullable) == a.nullable);
}

/// Merging the schemas of two objects whose field `k` holds a number in the first and
/// a string in the second keeps the field, with the first side's type: number.
pub proof fn lemma_merge_first_type_wins(k: Seq<char>, n: Seq<char>, x: Seq<char>)
    ensures
        ({
            let m = merge_spec(
                infer_spec(JsonV::Object(seq![(k, JsonV::Number(n))])),
                infer_spec(JsonV::Object(seq![(k, JsonV::Str(x))])),
            );
            &&& m.ty == Some(SchemaType::Object)
            &&& m.properties is Some
            &&& m.properties->Some_0.len() == 1
            &&& m.properties->Some_0[0].0 == k
            &&& m.properties->Some_0[0].1.ty == Some(SchemaType::Number)
        }),
{
    let a = infer_spec(JsonV::Object(seq![(k, JsonV::Number(n))]));
    let b = infer_spec(JsonV::Object(seq![(k, JsonV::Str(x))]));
    let q = b.properties->Some_0;
    assert(infer_spec(JsonV::Str(x)) == scalar_spec(SchemaType::String, JsonV::Str(x)));
    assert(infer_spec(JsonV::Number(n)) == scalar_spec(SchemaType::Number, JsonV::Number(n)));
    assert(seq![(k, JsonV::Str(x))][0] == (k, JsonV::Str(x)));
    assert(seq![(k, JsonV::Number(n))][0] == (k, JsonV::Number(n)));
    assert(q[0] == (k, scalar_spec(SchemaType::String, JsonV::Str(x))));
    assert(lookup(q, k) == Some(q[0].1));
    let p = a.properties->Some_0;
    assert(p[0].1 == scalar_spec(SchemaType::Number, JsonV::Number(n)));
    assert(p[0].0 == k);
    assert(p.len() == 1);
    let m = merge_spec(a, b);
    assert(merge_type(a.ty, b.ty) == Some(SchemaType::Object));
    assert(m.properties == Some(Seq::new(p.len(), |i: int| if 0 <= i < p.len() {
        (p[i].0, match lookup(q, p[i].0) {
            Some(s) => merge_spec(p[i].1, s),
            None => p[i].1,
        })
    } else {
        (Seq::empty(), SchemaV::empty())
    })));
    let mp = m.properties->Some_0;
    assert(mp[0] == (k, merge_spec(p[0].1, q[0].1)));
    assert(merge_spec(p[0].1, q[0].1).ty == Some(SchemaType::Number));
}

} // verus!
