use vstd::prelude::*;
use crate::text::{chars_of, string_of};
use convert_case::Casing;

verus! {

/// What convert_case makes of a text in camel case.
pub uninterp spec fn camel_of(s: Seq<char>) -> Seq<char>;

/// Whether every character of a text is ASCII.
pub open spec fn is_ascii_text(s: Seq<char>) -> bool {
    forall|k: int| 0 <= k < s.len() ==> #[trigger] s[k] <= '\u{7f}'
}

/// The base of an operation id for a request name: its camel-case form where the name
/// is ASCII, the name itself otherwise.
pub open spec fn id_base(name: Seq<char>) -> Seq<char> {
    if is_ascii_text(name) {
        camel_of(name)
    } else {
        name
    }
}

/// Relies on convert_case's `to_case(Case::Camel)`: the result depends on the text alone.
/// convert_case 0.4 cuts words at character counts taken as byte offsets, which panics on
/// some non-ASCII text, so the text must be ASCII.
#[verifier::external_body]
pub(crate) fn camel_case(s: &str) -> (r: String)
    requires
        is_ascii_text(s@),
    ensures
        r@ == camel_of(s@),
{
    s.to_case(convert_case::Case::Camel)
}

/// The decimal digit `d`.
pub open spec fn digit(d: nat) -> char {
    seq!['0', '1', '2', '3', '4', '5', '6', '7', '8', '9'][d as int]
}

/// The decimal form of `n`, without leading zeros.
pub open spec fn decimal(n: nat) -> Seq<char>
    decreases n,
{
    if n < 10 {
        seq![digit(n)]
    } else {
        decimal(n / 10).push(digit(n % 10))
    }
}

/// The decimal form of `n`.
pub fn decimal_exec(n: u64) -> (r: Vec<char>)
    ensures
        r@ == decimal(n as nat),
    decreases n,
{
    let digits: [char; 10] = ['0', '1', '2', '3', '4', '5', '6', '7', '8', '9'];
    assert(digits@ =~= seq!['0', '1', '2', '3', '4', '5', '6', '7', '8', '9']);
    if n < 10 {
        let mut v: Vec<char> = Vec::new();
        v.push(digits[n as usize]);
        assert(v@ =~= seq![digit(n as nat)]);
        v
    } else {
        let mut v = decimal_exec(n / 10);
        v.push(digits[(n % 10) as usize]);
        v
    }
}

/// The registry of issued operation ids: for each base id, how often it recurred.
pub struct OperationIds {
    pub entries: Vec<(String, usize)>,
}

/// The count under `k`: the latest entry that holds it.
pub open spec fn count_get(t: Seq<(Seq<char>, nat)>, k: Seq<char>) -> Option<nat>
    decreases t.len(),
{
    if t.len() == 0 {
        None
    } else if t.last().0 == k {
        Some(t.last().1)
    } else {
        count_get(t.drop_last(), k)
    }
}

/// The count that follows `c`, held at the largest `usize`.
pub open spec fn next_count(c: nat) -> nat {
    if c < usize::MAX { c + 1 } else { c }
}

impl OperationIds {
    pub open spec fn view(&self) -> Seq<(Seq<char>, nat)> {
        Seq::new(self.entries.len() as nat, |i: int| (self.entries@[i].0@, self.entries@[i].1 as nat))
    }

    /// A registry with no id issued.
    pub fn new() -> (r: OperationIds)
        ensures
            r@.len() == 0,
    {
        OperationIds { entries: Vec::new() }
    }

    /// Issues an id for `base`: `base` itself the first time, then `base` followed by
    /// 1, 2, ... for each later request of it.
    pub fn register(&mut self, base: String) -> (r: String)
        ensures
            r@ == issued_id(old(self)@, base@),
            final(self)@ == old(self)@.push((base@, count_after(old(self)@, base@))),
            count_get(final(self)@, base@) == Some(count_after(old(self)@, base@)),
            forall|k: Seq<char>| k != base@ ==> #[trigger] count_get(final(self)@, k) == count_get(old(self)@, k),
    {
        let ghost before = self@;
        let mut i: usize = self.entries.len();
        assert(self@.subrange(0, i as int) =~= self@);
        while i > 0
            invariant
                i <= self.entries.len(),
                self@ == before,
                before == old(self)@,
                count_get(self@, base@) == count_get(self@.subrange(0, i as int), base@),
            decreases i,
        {
            assert(self@.subrange(0, i as int).last() == self@[i - 1]);
            if self.entries[i - 1].0 == base {
                let c = self.entries[i - 1].1;
                let n = if c < usize::MAX { c + 1 } else { c };
                let digits = decimal_exec(n as u64);
                let mut id = chars_of(base.as_str());
                let mut k: usize = 0;
                let ghost start = id@;
                while k < digits.len()
                    invariant
                        k <= digits.len(),
                        id@ == start + digits@.subrange(0, k as int),
                    decreases digits.len() - k,
                {
                    id.push(digits[k]);
                    k = k + 1;
                    assert(id@ =~= start + digits@.subrange(0, k as int));
                }
                assert(digits@.subrange(0, digits.len() as int) =~= digits@);
                let r = string_of(&id);
                let ghost bv = base@;
                assert(count_get(before, bv) == Some(c as nat));
                self.entries.push((base, n));
                assert(self@.drop_last() =~= before);
                assert(self@.last() == (bv, n as nat));
                assert(n as nat == next_count(c as nat));
                return r;
            }
            assert(self@.subrange(0, i as int).drop_last() =~= self@.subrange(0, i - 1));
            i = i - 1;
        }
        let r = base.clone();
        self.entries.push((base, 0));
        assert(self@.drop_last() =~= before);
        r
    }
}

/// The operation id for a request name: its camel-case form (the name itself where it is
/// not ASCII), made unique in the registry.
pub fn operation_id(ids: &mut OperationIds, name: &str) -> (r: String)
    ensures
        r@ == issued_id(old(ids)@, id_base(name@)),
        final(ids)@ == old(ids)@.push((id_base(name@), count_after(old(ids)@, id_base(name@)))),
        count_get(final(ids)@, id_base(name@)) == Some(count_after(old(ids)@, id_base(name@))),
        forall|k: Seq<char>| k != id_base(name@) ==> #[trigger] count_get(final(ids)@, k) == count_get(old(ids)@, k),
{
    let c = chars_of(name);
    let mut i: usize = 0;
    while i < c.len() && c[i] <= '\u{7f}'
        invariant
            i <= c.len(),
            forall|k: int| 0 <= k < i ==> #[trigger] c@[k] <= '\u{7f}',
        decreases c.len() - i,
    {
        i = i + 1;
    }
    let base = if i == c.len() {
        camel_case(name)
    } else {
        assert(!is_ascii_text(name@)) by {
            assert(!(c@[i as int] <= '\u{7f}'));
        }
        name.to_owned()
    };
    ids.register(base)
}

/// The id issued for `base` from a registry: `base` where it was not issued before, else
/// `base` followed by its next count.
pub open spec fn issued_id(t: Seq<(Seq<char>, nat)>, base: Seq<char>) -> Seq<char> {
    match count_get(t, base) {
        None => base,
        Some(c) => base + decimal(next_count(c)),
    }
}

/// The count of `base` after an id for it was issued.
pub open spec fn count_after(t: Seq<(Seq<char>, nat)>, base: Seq<char>) -> nat {
    match count_get(t, base) {
        None => 0,
        Some(c) => next_count(c),
    }
}

/// Two requests whose names give one camel-case form, met in this order in a registry
/// where that form was not issued, get distinct ids: the form itself, then the form
/// followed by `1`.
pub proof fn lemma_colliding_names_get_suffix(t0: Seq<(Seq<char>, nat)>, t1: Seq<(Seq<char>, nat)>, base: Seq<char>)
    requires
        count_get(t0, base) is None,
        count_get(t1, base) == Some(count_after(t0, base)),
    ensures
        issued_id(t0, base) == base,
        issued_id(t1, base) == base + seq!['1'],
        issued_id(t0, base) != issued_id(t1, base),
{
    assert(decimal(1) =~= seq!['1']);
    assert(issued_id(t1, base).len() == base.len() + 1);
}

} // verus!
