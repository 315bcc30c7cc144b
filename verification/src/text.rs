//! Text as sequences of characters: substitution, joining, de-duplication and
//! title casing.

use itertools::Itertools;
use vstd::prelude::*;
use vstd::string::StringExecFns;
use vstd::string::StrSliceExecFns;
use vstd::utf8::is_ascii_chars;

verus! {

/// `String::push` appends one character to the end of the string.
pub assume_specification[ String::push ](s: &mut String, c: char)
    ensures
        final(s)@ == old(s)@.push(c),
;

/// The characters of a string, in order.
pub fn chars_of(s: &str) -> (v: Vec<char>)
    ensures
        v@ == s@,
{
    let mut v: Vec<char> = Vec::new();
    for c in it: s.chars()
        invariant
            it.seq() == s@,
            v@ =~= it.seq().take(it.index() as int),
    {
        v.push(c);
        assert(it.seq().take(it.index() + 1) =~= it.seq().take(it.index() as int).push(c));
    }
    assert(s@.take(s@.len() as int) =~= s@);
    v
}

/// The string made of the given characters.
pub fn string_of(v: &Vec<char>) -> (s: String)
    ensures
        s@ == v@,
{
    let mut s = String::new();
    let mut i: usize = 0;
    while i < v.len()
        invariant
            i <= v.len(),
            s@ == v@.take(i as int),
        decreases v.len() - i,
    {
        s.push(v[i]);
        i += 1;
        assert(v@.take(i as int) =~= v@.take(i - 1).push(v@[i - 1]));
    }
    assert(v@.take(v.len() as int) =~= v@);
    s
}

/// `str::eq`, the `==` of `str`, holds exactly where the two texts have the
/// same characters.
#[verifier::external_body]
pub(crate) fn same_text(a: &str, b: &str) -> (same: bool)
    ensures
        same == (a@ == b@),
{
    a == b
}

/// Tests whether an optional key is absent or equal to `text`.
pub(crate) fn absent_or_same(key: &Option<String>, text: &str) -> (ok: bool)
    ensures
        ok == (key is Some ==> key->0@ == text@),
{
    match key {
        Some(k) => same_text(k.as_str(), text),
        None => true,
    }
}

/// Tests whether two optional texts are both absent or both the same text.
pub(crate) fn same_optional_text(a: &Option<String>, b: &Option<String>) -> (same: bool)
    ensures
        same == (a.deep_view() == b.deep_view()),
{
    match (a, b) {
        (Some(x), Some(y)) => same_text(x.as_str(), y.as_str()),
        (None, None) => true,
        _ => false,
    }
}

/// A copy of an optional text.
pub(crate) fn copy_optional_text(a: &Option<String>) -> (copy: Option<String>)
    ensures
        copy.deep_view() == a.deep_view(),
{
    match a {
        Some(x) => Some(x.clone()),
        None => None,
    }
}

/// Whether `pattern` occurs in `text` starting at position `at`.
pub open spec fn occurs_at(text: Seq<char>, pattern: Seq<char>, at: int) -> bool {
    &&& 0 <= at
    &&& at + pattern.len() <= text.len()
    &&& forall|k: int| 0 <= k < pattern.len() ==> text[at + k] == #[trigger] pattern[k]
}

/// `text` from position `from` on, with every occurrence of `pattern` replaced
/// by `with`. Occurrences are found from left to right and do not overlap; an
/// empty pattern occurs nowhere.
pub open spec fn replaced_from(
    text: Seq<char>,
    pattern: Seq<char>,
    with: Seq<char>,
    from: int,
) -> Seq<char>
    decreases text.len() - from,
{
    if from < 0 || from >= text.len() {
        Seq::empty()
    } else if pattern.len() > 0 && occurs_at(text, pattern, from) {
        with + replaced_from(text, pattern, with, from + pattern.len())
    } else {
        seq![text[from]] + replaced_from(text, pattern, with, from + 1)
    }
}

/// `text` with every occurrence of `pattern` replaced by `with`.
pub open spec fn replaced(text: Seq<char>, pattern: Seq<char>, with: Seq<char>) -> Seq<char> {
    replaced_from(text, pattern, with, 0)
}

/// Tests whether `pattern` occurs in `text` at position `at`.
pub fn matches_at(text: &Vec<char>, pattern: &Vec<char>, at: usize) -> (found: bool)
    ensures
        found == occurs_at(text@, pattern@, at as int),
{
    if at > text.len() || pattern.len() > text.len() - at {
        return false;
    }
    let mut k: usize = 0;
    while k < pattern.len()
        invariant
            k <= pattern.len(),
            at + pattern.len() <= text.len(),
            forall|j: int| 0 <= j < k ==> text@[at + j] == #[trigger] pattern@[j],
        decreases pattern.len() - k,
    {
        if text[at + k] != pattern[k] {
            return false;
        }
        k += 1;
    }
    true
}

/// Replaces every occurrence of `pattern` in `text` by `with`.
pub fn replace_all(text: &Vec<char>, pattern: &Vec<char>, with: &Vec<char>) -> (out: Vec<char>)
    ensures
        out@ == replaced(text@, pattern@, with@),
{
    let mut out: Vec<char> = Vec::new();
    let mut i: usize = 0;
    while i < text.len()
        invariant
            i <= text.len(),
            out@ + replaced_from(text@, pattern@, with@, i as int) == replaced(
                text@,
                pattern@,
                with@,
            ),
        decreases text.len() - i,
    {
        let ghost before = out@;
        if pattern.len() > 0 && matches_at(text, pattern, i) {
            let mut k: usize = 0;
            while k < with.len()
                invariant
                    k <= with.len(),
                    out@ == before + with@.take(k as int),
                decreases with.len() - k,
            {
                out.push(with[k]);
                k += 1;
                assert(with@.take(k as int) =~= with@.take(k - 1).push(with@[k - 1]));
            }
            assert(with@.take(with.len() as int) =~= with@);
            assert((before + with@) + replaced_from(
                text@,
                pattern@,
                with@,
                i + pattern.len(),
            ) =~= before + replaced_from(text@, pattern@, with@, i as int));
            i += pattern.len();
        } else {
            out.push(text[i]);
            assert(before.push(text@[i as int]) + replaced_from(text@, pattern@, with@, i + 1)
                =~= before + replaced_from(text@, pattern@, with@, i as int));
            i += 1;
        }
    }
    assert(out@ + Seq::<char>::empty() =~= out@);
    out
}

/// One rewriting rule: every occurrence of `pattern` becomes `with`.
#[derive(Clone, Debug)]
pub struct Substitution {
    pub pattern: String,
    pub with: String,
}

impl DeepView for Substitution {
    type V = (Seq<char>, Seq<char>);

    open spec fn deep_view(&self) -> (Seq<char>, Seq<char>) {
        (self.pattern@, self.with@)
    }
}

/// `text` after the first `n` rules of `table` have been applied, one after
/// the other.
pub open spec fn substituted_upto(
    text: Seq<char>,
    table: Seq<(Seq<char>, Seq<char>)>,
    n: int,
) -> Seq<char>
    decreases n,
{
    if n <= 0 {
        text
    } else {
        replaced(substituted_upto(text, table, n - 1), table[n - 1].0, table[n - 1].1)
    }
}

/// `text` after every rule of `table` has been applied in order.
pub open spec fn substituted(text: Seq<char>, table: Seq<(Seq<char>, Seq<char>)>) -> Seq<char> {
    substituted_upto(text, table, table.len() as int)
}

/// Applies the rules of `table` to `text`, in the order of the table.
pub fn substitute(text: &str, table: &Vec<Substitution>) -> (out: String)
    ensures
        out@ == substituted(text@, table.deep_view()),
{
    let mut current = chars_of(text);
    let mut i: usize = 0;
    while i < table.len()
        invariant
            i <= table.len(),
            current@ == substituted_upto(text@, table.deep_view(), i as int),
        decreases table.len() - i,
    {
        let pattern = chars_of(table[i].pattern.as_str());
        let with = chars_of(table[i].with.as_str());
        assert(table.deep_view()[i as int] == (pattern@, with@));
        current = replace_all(&current, &pattern, &with);
        i += 1;
    }
    string_of(&current)
}

/// The rules that shorten verbose route names: a vendor suffix is dropped,
/// directions of rotation and two regional names become short codes.
pub open spec fn standard_rules() -> Seq<(Seq<char>, Seq<char>)> {
    seq![
        ("-16168"@, ""@),
        ("Counterclockwise"@, "ACW"@),
        ("counterclockwise"@, "ACW"@),
        ("clockwise"@, "CW"@),
        ("Clockwise"@, "CW"@),
        ("Orange County"@, "OC"@),
        ("Inland Empire"@, "IE"@),
    ]
}

fn rule(pattern: &str, with: &str) -> (r: Substitution)
    ensures
        r.deep_view() == (pattern@, with@),
{
    Substitution { pattern: pattern.to_owned(), with: with.to_owned() }
}

/// The table of `standard_rules`.
pub fn standard_substitutions() -> (table: Vec<Substitution>)
    ensures
        table.deep_view() == standard_rules(),
{
    let mut table: Vec<Substitution> = Vec::new();
    table.push(rule("-16168", ""));
    table.push(rule("Counterclockwise", "ACW"));
    table.push(rule("counterclockwise", "ACW"));
    table.push(rule("clockwise", "CW"));
    table.push(rule("Clockwise", "CW"));
    table.push(rule("Orange County", "OC"));
    table.push(rule("Inland Empire", "IE"));
    assert(table.deep_view() =~= standard_rules());
    table
}

/// The parts written one after the other with `sep` between neighbours.
pub open spec fn joined(parts: Seq<Seq<char>>, sep: Seq<char>) -> Seq<char>
    decreases parts.len(),
{
    if parts.len() == 0 {
        Seq::empty()
    } else if parts.len() == 1 {
        parts[0]
    } else {
        joined(parts.drop_last(), sep) + sep + parts.last()
    }
}

/// Joins the parts with `sep` between neighbours.
pub fn join(parts: &Vec<String>, sep: &str) -> (out: String)
    ensures
        out@ == joined(parts.deep_view(), sep@),
{
    let mut out = String::new();
    let mut i: usize = 0;
    while i < parts.len()
        invariant
            i <= parts.len(),
            out@ == joined(parts.deep_view().take(i as int), sep@),
        decreases parts.len() - i,
    {
        if i > 0 {
            out.append(sep);
        }
        out.append(parts[i].as_str());
        i += 1;
        proof {
            let upto = parts.deep_view().take(i as int);
            assert(upto.drop_last() =~= parts.deep_view().take(i - 1));
            assert(upto.last() == parts@[i - 1]@);
            if i == 1 {
                assert(Seq::<char>::empty() + parts@[0]@ =~= parts@[0]@);
            }
        }
    }
    assert(parts.deep_view().take(parts.len() as int) =~= parts.deep_view());
    out
}

/// The items without repetitions: an item stays where it occurs first.
pub open spec fn distinct<A>(items: Seq<A>) -> Seq<A>
    decreases items.len(),
{
    if items.len() == 0 {
        items
    } else if items.drop_last().contains(items.last()) {
        distinct(items.drop_last())
    } else {
        distinct(items.drop_last()).push(items.last())
    }
}

/// The distinct items are the items, and none of them stands twice.
pub proof fn lemma_distinct_members<A>(items: Seq<A>)
    ensures
        forall|x: A| distinct(items).contains(x) <==> items.contains(x),
        distinct(items).no_duplicates(),
    decreases items.len(),
{
    if items.len() > 0 {
        let front = items.drop_last();
        let last = items.last();
        lemma_distinct_members(front);
        assert forall|x: A| distinct(items).contains(x) <==> items.contains(x) by {
            if items.contains(x) {
                let i = choose|i: int| 0 <= i < items.len() && items[i] == x;
                if i < items.len() - 1 {
                    assert(front[i] == x);
                    assert(front.contains(x));
                }
            }
            if front.contains(x) {
                let i = choose|i: int| 0 <= i < front.len() && front[i] == x;
                assert(items[i] == x);
            }
            if front.contains(last) {
            } else {
                let d = distinct(front);
                if d.push(last).contains(x) {
                    let i = choose|i: int| 0 <= i < d.push(last).len() && d.push(last)[i] == x;
                    if i < d.len() {
                        assert(d[i] == x);
                        assert(d.contains(x));
                    } else {
                        assert(items[items.len() - 1] == x);
                    }
                }
                if d.contains(x) {
                    let i = choose|i: int| 0 <= i < d.len() && d[i] == x;
                    assert(d.push(last)[i] == x);
                }
                if x == last {
                    assert(d.push(last)[d.len() as int] == x);
                }
            }
        }
        if !front.contains(last) {
            let d = distinct(front);
            assert(!d.contains(last));
            assert forall|i: int, j: int|
                0 <= i < d.push(last).len() && 0 <= j < d.push(last).len() && i != j implies d.push(
                last,
            )[i] != d.push(last)[j] by {
                if i < d.len() && j < d.len() {
                    assert(d[i] != d[j]);
                } else if i < d.len() {
                    assert(d.contains(d[i]));
                } else {
                    assert(d.contains(d[j]));
                }
            }
        }
    }
}

/// `Itertools::unique` over the items of a vector, collected again: it yields
/// the items in their order and leaves out each one that compares equal to an
/// item that came before.
#[verifier::external_body]
pub(crate) fn unique_texts(items: Vec<String>) -> (out: Vec<String>)
    ensures
        out.deep_view() == distinct(items.deep_view()),
{
    items.into_iter().unique().collect()
}

/// What `titlecase::titlecase` makes of a text.
pub uninterp spec fn title_cased(text: Seq<char>) -> Seq<char>;

/// `titlecase::titlecase` rewrites a title in the capitalisation of its style
/// guide; the result depends on the text alone.
#[verifier::external_body]
fn title_case(text: &str) -> (out: String)
    ensures
        out@ == title_cased(text@),
{
    titlecase::titlecase(text)
}

/// Whether a name is put in title case: only names of seven characters or
/// more that are plain ASCII, so that other scripts are left as they are.
pub open spec fn is_title_cased(text: Seq<char>) -> bool {
    text.len() >= 7 && is_ascii_chars(text)
}

/// The display form of a name: title case where `is_title_cased` allows it,
/// the name itself otherwise.
pub fn titlecase_process_new_nooption(input: &String) -> (out: String)
    ensures
        out@ == if is_title_cased(input@) {
            title_cased(input@)
        } else {
            input@
        },
{
    let text = input.as_str();
    if text.is_ascii() && text.unicode_len() >= 7 {
        title_case(text)
    } else {
        input.clone()
    }
}

/// The display form of an optional name.
pub fn titlecase_process_new(input: Option<&String>) -> (out: Option<String>)
    ensures
        input is None <==> out is None,
        input is Some ==> out->0@ == if is_title_cased(input->0@) {
            title_cased(input->0@)
        } else {
            input->0@
        },
{
    match input {
        Some(s) => Some(titlecase_process_new_nooption(s)),
        None => None,
    }
}

/// Whether `char::is_uppercase` holds of a character.
pub uninterp spec fn uppercase_char(c: char) -> bool;

/// `char::is_uppercase` tells whether a character has the Unicode property
/// `Uppercase`.
#[verifier::external_body]
fn char_is_uppercase(c: char) -> (b: bool)
    ensures
        b == uppercase_char(c),
{
    c.is_uppercase()
}

/// Whether every character of the string is an uppercase letter.
pub fn is_uppercase(string: &str) -> (all: bool)
    ensures
        all == forall|i: int| 0 <= i < string@.len() ==> uppercase_char(#[trigger] string@[i]),
{
    let chars = chars_of(string);
    let mut i: usize = 0;
    while i < chars.len()
        invariant
            i <= chars.len(),
            chars@ == string@,
            forall|j: int| 0 <= j < i ==> uppercase_char(#[trigger] string@[j]),
        decreases chars.len() - i,
    {
        if !char_is_uppercase(chars[i]) {
            return false;
        }
        i += 1;
    }
    true
}

} // verus!
