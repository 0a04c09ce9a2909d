use vstd::prelude::*;
use crate::json::{Json, JsonV};
use crate::text::{chars_of, string_of, replace_all, replace_all_exec};
use crate::vars::{VariableTable, table_get};

verus! {

pub open spec fn is_brace(c: char) -> bool {
    c == '{' || c == '}'
}

/// The first position at or after `i` that holds a brace, or the length of `s`.
pub open spec fn brace_from(s: Seq<char>, i: int) -> int
    decreases s.len() - i,
{
    if i < 0 || i >= s.len() {
        s.len() as int
    } else if is_brace(s[i]) {
        i
    } else {
        brace_from(s, i + 1)
    }
}

/// Whether a placeholder `{{name}}` starts at `i`: two opening braces, a name without
/// braces, two closing braces.
pub open spec fn placeholder_at(s: Seq<char>, i: int) -> bool {
    0 <= i && i + 1 < s.len() && s[i] == '{' && s[i + 1] == '{' && {
        let j = brace_from(s, i + 2);
        j + 1 < s.len() && s[j] == '}' && s[j + 1] == '}'
    }
}

/// The name of the placeholder at `i`.
pub open spec fn name_at(s: Seq<char>, i: int) -> Seq<char> {
    s.subrange(i + 2, brace_from(s, i + 2))
}

/// The whole placeholder at `i`, braces included.
pub open spec fn token_at(s: Seq<char>, i: int) -> Seq<char> {
    s.subrange(i, brace_from(s, i + 2) + 2)
}

/// The first position at or after `i` where a placeholder starts.
pub open spec fn first_placeholder(s: Seq<char>, i: int) -> Option<int>
    decreases s.len() - i,
{
    if i < 0 || i >= s.len() {
        None
    } else if placeholder_at(s, i) {
        Some(i)
    } else {
        first_placeholder(s, i + 1)
    }
}

/// The text that a name stands for: the value under it, where that value is a string.
pub open spec fn var_string(t: Seq<(Seq<char>, JsonV)>, name: Seq<char>) -> Option<Seq<char>> {
    match table_get(t, name) {
        Some(JsonV::Str(v)) => Some(v),
        _ => None,
    }
}

/// The first position at or after `i` where a placeholder starts whose name stands for
/// a text; placeholders of other names are passed over.
pub open spec fn first_known(t: Seq<(Seq<char>, JsonV)>, s: Seq<char>, i: int) -> Option<int>
    decreases s.len() - i,
{
    if i < 0 || i >= s.len() {
        None
    } else if placeholder_at(s, i) && var_string(t, name_at(s, i)) is Some {
        Some(i)
    } else {
        first_known(t, s, i + 1)
    }
}

/// One substitution: the first placeholder of `s` whose name stands for a text is
/// replaced by that text wherever it occurs.
pub open spec fn substitute_once(t: Seq<(Seq<char>, JsonV)>, s: Seq<char>) -> Option<Seq<char>> {
    match first_known(t, s, 0) {
        Some(i) => Some(replace_all(s, token_at(s, i), var_string(t, name_at(s, i))->Some_0)),
        None => None,
    }
}

/// Where every placeholder names a text, the first known one is the first one.
pub proof fn lemma_first_known_is_first(t: Seq<(Seq<char>, JsonV)>, s: Seq<char>, k: int)
    requires
        0 <= k,
        forall|j: int| k <= j && #[trigger] placeholder_at(s, j) ==> var_string(t, name_at(s, j)) is Some,
    ensures
        first_known(t, s, k) == first_placeholder(s, k),
    decreases s.len() - k,
{
    if k < s.len() {
        lemma_first_known_is_first(t, s, k + 1);
    }
}

/// Substitution repeated until it no longer applies or `credits` of them were made.
pub open spec fn resolve_spec(t: Seq<(Seq<char>, JsonV)>, s: Seq<char>, credits: nat) -> Seq<char>
    decreases credits,
{
    if credits == 0 {
        s
    } else {
        match substitute_once(t, s) {
            Some(r) => resolve_spec(t, r, (credits - 1) as nat),
            None => s,
        }
    }
}

/// The text after `n` substitutions in a row, where each of them applies.
pub open spec fn substitute_n(t: Seq<(Seq<char>, JsonV)>, s: Seq<char>, n: nat) -> Option<Seq<char>>
    decreases n,
{
    if n == 0 {
        Some(s)
    } else {
        match substitute_once(t, s) {
            Some(x) => substitute_n(t, x, (n - 1) as nat),
            None => None,
        }
    }
}

/// Resolution ends, whatever the table holds (placeholders that refer to each other
/// included): its result is the text after at most `credits` substitutions, and where
/// fewer were made, no further one applies.
pub proof fn lemma_resolution_bounded(t: Seq<(Seq<char>, JsonV)>, s: Seq<char>, credits: nat)
    ensures
        exists|k: nat| #![auto]
            k <= credits && substitute_n(t, s, k) == Some(resolve_spec(t, s, credits)) && (k == credits
                || substitute_once(t, resolve_spec(t, s, credits)) is None),
    decreases credits,
{
    if credits == 0 {
        assert(substitute_n(t, s, 0) == Some(s));
    } else {
        match substitute_once(t, s) {
            Some(x) => {
                lemma_resolution_bounded(t, x, (credits - 1) as nat);
                let k = choose|k: nat| #![auto]
                    k <= credits - 1 && substitute_n(t, x, k) == Some(resolve_spec(t, x, (credits - 1) as nat)) && (k == credits - 1
                        || substitute_once(t, resolve_spec(t, x, (credits - 1) as nat)) is None);
                assert(substitute_n(t, s, k + 1) == substitute_n(t, x, k));
            },
            None => {
                assert(substitute_n(t, s, 0) == Some(s));
            },
        }
    }
}

/// `s` from `i` on, with each placeholder `{{name}}` written as `{name}`.
pub open spec fn template_from(s: Seq<char>, i: int) -> Seq<char>
    decreases s.len() - i via template_from_decreases
{
    if i < 0 || i >= s.len() {
        Seq::empty()
    } else if placeholder_at(s, i) {
        seq!['{'] + name_at(s, i) + seq!['}'] + template_from(s, brace_from(s, i + 2) + 2)
    } else {
        seq![s[i]] + template_from(s, i + 1)
    }
}

/// `s` with each placeholder `{{name}}` written as `{name}`.
pub open spec fn to_template(s: Seq<char>) -> Seq<char> {
    template_from(s, 0)
}

#[via_fn]
proof fn template_from_decreases(s: Seq<char>, i: int) {
    if 0 <= i < s.len() && placeholder_at(s, i) {
        lemma_brace_from_bounds(s, i + 2);
    }
}

/// The position that `first_placeholder` finds holds a placeholder.
pub proof fn lemma_first_placeholder_at(s: Seq<char>, k: int)
    requires
        0 <= k,
    ensures
        first_placeholder(s, k) matches Some(i) ==> k <= i && placeholder_at(s, i),
    decreases s.len() - k,
{
    if k < s.len() && !placeholder_at(s, k) {
        lemma_first_placeholder_at(s, k + 1);
    }
}

pub proof fn lemma_brace_from_bounds(s: Seq<char>, i: int)
    requires
        0 <= i,
    ensures
        i <= brace_from(s, i) || i > s.len(),
        brace_from(s, i) <= s.len(),
        forall|k: int| i <= k < brace_from(s, i) ==> !is_brace(#[trigger] s[k]),
        brace_from(s, i) < s.len() ==> is_brace(s[brace_from(s, i)]),
    decreases s.len() - i,
{
    if i < s.len() && !is_brace(s[i]) {
        lemma_brace_from_bounds(s, i + 1);
    }
}

/// The first position at or after `i` that holds a brace, or the length.
fn brace_from_exec(s: &Vec<char>, i: usize) -> (r: usize)
    ensures
        r == brace_from(s@, i as int),
{
    let mut k: usize = i;
    if k >= s.len() {
        return s.len();
    }
    while k < s.len()
        invariant
            i <= k <= s.len(),
            brace_from(s@, i as int) == brace_from(s@, k as int),
        decreases s.len() - k,
    {
        if s[k] == '{' || s[k] == '}' {
            return k;
        }
        k = k + 1;
    }
    k
}

/// Whether a placeholder starts at `i`.
fn placeholder_at_exec(s: &Vec<char>, i: usize) -> (r: bool)
    ensures
        r == placeholder_at(s@, i as int),
{
    if i >= s.len() || s.len() - i < 2 || s[i] != '{' || s[i + 1] != '{' {
        return false;
    }
    let j = brace_from_exec(s, i + 2);
    proof {
        lemma_brace_from_bounds(s@, i + 2);
    }
    j < s.len() && s.len() - j >= 2 && s[j] == '}' && s[j + 1] == '}'
}

/// The first position where a placeholder starts.
fn first_placeholder_exec(s: &Vec<char>) -> (r: Option<usize>)
    ensures
        match r {
            Some(i) => first_placeholder(s@, 0) == Some(i as int),
            None => first_placeholder(s@, 0) is None,
        },
{
    let mut i: usize = 0;
    while i < s.len()
        invariant
            i <= s.len(),
            first_placeholder(s@, 0) == first_placeholder(s@, i as int),
        decreases s.len() - i,
    {
        if placeholder_at_exec(s, i) {
            return Some(i);
        }
        i = i + 1;
    }
    None
}

/// Writes each placeholder `{{name}}` of `s` as `{name}`.
pub fn to_template_exec(s: &Vec<char>) -> (r: Vec<char>)
    ensures
        r@ == to_template(s@),
{
    let mut out: Vec<char> = Vec::new();
    let mut i: usize = 0;
    while i < s.len()
        invariant
            i <= s.len(),
            out@ + template_from(s@, i as int) == to_template(s@),
        decreases s.len() - i,
    {
        if placeholder_at_exec(s, i) {
            let j = brace_from_exec(s, i + 2);
            proof {
                lemma_brace_from_bounds(s@, i + 2);
            }
            let ghost before = out@;
            out.push('{');
            let mut k: usize = i + 2;
            while k < j
                invariant
                    i + 2 <= k <= j,
                    j < s.len(),
                    out@ == before + seq!['{'] + s@.subrange(i + 2, k as int),
                decreases j - k,
            {
                out.push(s[k]);
                k = k + 1;
                assert(out@ =~= before + seq!['{'] + s@.subrange(i + 2, k as int));
            }
            out.push('}');
            assert(before + (seq!['{'] + name_at(s@, i as int) + seq!['}'] + template_from(s@, j + 2))
                =~= out@ + template_from(s@, j + 2));
            i = j + 2;
        } else {
            let ghost before = out@;
            out.push(s[i]);
            assert(before + (seq![s@[i as int]] + template_from(s@, i + 1)) =~= out@ + template_from(s@, i + 1));
            i = i + 1;
        }
    }
    assert(out@ + template_from(s@, i as int) =~= out@);
    out
}

/// How the text left at the end of a resolution is written.
#[derive(PartialEq, Eq, Structural, Clone, Copy, Debug)]
pub enum ReplaceMode {
    /// As it is.
    Keep,
    /// With each remaining placeholder `{{name}}` written as a path template `{name}`.
    PathTemplate,
}

/// The result of a resolution in the given mode.
pub open spec fn resolve_mode_spec(t: Seq<(Seq<char>, JsonV)>, s: Seq<char>, credits: nat, mode: ReplaceMode) -> Seq<char> {
    match mode {
        ReplaceMode::Keep => resolve_spec(t, s, credits),
        ReplaceMode::PathTemplate => to_template(resolve_spec(t, s, credits)),
    }
}

impl VariableTable {
    /// The text that `name` stands for, where its value is a string.
    fn lookup_string(&self, name: &Vec<char>) -> (r: Option<Vec<char>>)
        ensures
            match r {
                Some(v) => var_string(self@, name@) == Some(v@),
                None => var_string(self@, name@) is None,
            },
    {
        let key = string_of(name);
        match self.get(&key) {
            Some(Json::Str(v)) => Some(chars_of(v.as_str())),
            _ => None,
        }
    }

    /// Resolves placeholders on characters, making at most `credits` substitutions.
    fn resolve_chars(&self, s: Vec<char>, credits: usize) -> (r: Vec<char>)
        ensures
            r@ == resolve_spec(self@, s@, credits as nat),
        decreases credits,
    {
        if credits == 0 {
            return s;
        }
        let mut i: usize = 0;
        while i < s.len()
            invariant
                i <= s.len(),
                credits > 0,
                first_known(self@, s@, 0) == first_known(self@, s@, i as int),
            decreases s.len() - i,
        {
            if placeholder_at_exec(&s, i) {
                let n = s.len();
                assert(i + 1 < n);
                let j = brace_from_exec(&s, i + 2);
                proof {
                    lemma_brace_from_bounds(s@, i + 2);
                }
                let name = slice_chars(&s, i + 2, j);
                match self.lookup_string(&name) {
                    Some(v) => {
                        let token = slice_chars(&s, i, j + 2);
                        let next = replace_all_exec(&s, &token, &v);
                        return self.resolve_chars(next, credits - 1);
                    },
                    None => {},
                }
            }
            i = i + 1;
        }
        s
    }

    /// Replaces `{{name}}` placeholders by the text their name stands for, again on the
    /// result, at most `credits` times; in `PathTemplate` mode the placeholders left are
    /// then written as `{name}`.
    pub fn resolve_variables_with_replace_fn(&self, segment: &str, credits: usize, mode: ReplaceMode) -> (r: String)
        ensures
            r@ == resolve_mode_spec(self@, segment@, credits as nat, mode),
    {
        let c = chars_of(segment);
        let resolved = self.resolve_chars(c, credits);
        match mode {
            ReplaceMode::Keep => string_of(&resolved),
            ReplaceMode::PathTemplate => string_of(&to_template_exec(&resolved)),
        }
    }

    /// Replaces `{{name}}` placeholders by the text their name stands for, again on the
    /// result, at most `credits` times.
    pub fn resolve_variables(&self, segment: &str, credits: usize) -> (r: String)
        ensures
            r@ == resolve_spec(self@, segment@, credits as nat),
    {
        self.resolve_variables_with_replace_fn(segment, credits, ReplaceMode::Keep)
    }
}

/// The characters of `s` from `a` up to `b`.
fn slice_chars(s: &Vec<char>, a: usize, b: usize) -> (r: Vec<char>)
    requires
        a <= b <= s.len(),
    ensures
        r@ == s@.subrange(a as int, b as int),
{
    let mut out: Vec<char> = Vec::new();
    let mut k: usize = a;
    while k < b
        invariant
            a <= k <= b <= s.len(),
            out@ == s@.subrange(a as int, k as int),
        decreases b - k,
    {
        out.push(s[k]);
        k = k + 1;
        assert(out@ =~= s@.subrange(a as int, k as int));
    }
    out
}

} // verus!
