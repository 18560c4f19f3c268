//! Repair of JSON that was cut off before its end.
use crate::text::chars_of;
use vstd::prelude::*;
use vstd::string::*;

verus! {

/// What has been opened and not yet closed after a stretch of JSON text.
pub struct Pending {
    /// The closers that are owed, the outermost first.
    pub closers: Seq<char>,
    /// The stretch ends inside a string.
    pub in_string: bool,
    /// The stretch ends behind a backslash inside a string.
    pub escaped: bool,
    /// A closer stands where none, or another one, was owed.
    pub broken: bool,
}

/// What is pending before any text.
pub open spec fn nothing_pending() -> Pending {
    Pending { closers: Seq::empty(), in_string: false, escaped: false, broken: false }
}

/// What is pending after one more character.
pub open spec fn pending_step(p: Pending, c: char) -> Pending {
    if p.broken {
        p
    } else if p.in_string {
        if p.escaped {
            Pending { escaped: false, ..p }
        } else if c == '\\' {
            Pending { escaped: true, ..p }
        } else if c == '"' {
            Pending { in_string: false, ..p }
        } else {
            p
        }
    } else if c == '"' {
        Pending { in_string: true, ..p }
    } else if c == '{' {
        Pending { closers: p.closers.push('}'), ..p }
    } else if c == '[' {
        Pending { closers: p.closers.push(']'), ..p }
    } else if c == '}' || c == ']' {
        if p.closers.len() > 0 && p.closers.last() == c {
            Pending { closers: p.closers.drop_last(), ..p }
        } else {
            Pending { broken: true, ..p }
        }
    } else {
        p
    }
}

/// What is pending after `text`.
pub open spec fn pending(text: Seq<char>) -> Pending
    decreases text.len(),
{
    if text.len() == 0 {
        nothing_pending()
    } else {
        pending_step(pending(text.drop_last()), text.last())
    }
}

/// What closes everything that is pending: the open string first, then the
/// objects and arrays from the innermost outwards.
pub open spec fn closing(p: Pending) -> Seq<char> {
    (if p.in_string {
        seq!['"']
    } else {
        Seq::empty()
    }) + p.closers.reverse()
}

/// `text` with everything closed that it leaves open. There is nothing to repair
/// where it leaves nothing open, and no repair where a closer is out of place or
/// the text ends behind a backslash.
pub open spec fn repaired(text: Seq<char>) -> Option<Seq<char>> {
    let p = pending(text);
    if p.broken || p.escaped || (!p.in_string && p.closers.len() == 0) {
        None
    } else {
        Some(text + closing(p))
    }
}

/// A repair only adds text at the end, and leaves nothing open.
pub proof fn repair_closes_everything(text: Seq<char>)
    ensures
        repaired(text) matches Some(r) ==> {
            &&& text.is_prefix_of(r)
            &&& text.len() < r.len()
            &&& pending(r) == nothing_pending()
        },
{
    let p = pending(text);
    if repaired(text) is Some {
        let r = text + closing(p);
        assert(r.take(text.len() as int) =~= text);
        let quote: Seq<char> = if p.in_string {
            seq!['"']
        } else {
            Seq::empty()
        };
        let base = text + quote;
        if p.in_string {
            assert(base.drop_last() =~= text);
        } else {
            assert(base =~= text);
        }
        lemma_pending_shape(text);
        closers_settle(base, pending(base).closers);
        assert(r =~= base + p.closers.reverse());
    }
}

/// Every closer that is owed is one of the two that exist.
proof fn lemma_pending_shape(text: Seq<char>)
    ensures
        forall|i: int|
            0 <= i < pending(text).closers.len() ==> #[trigger] pending(text).closers[i] == '}'
                || pending(text).closers[i] == ']',
    decreases text.len(),
{
    if text.len() > 0 {
        lemma_pending_shape(text.drop_last());
        let before = pending(text.drop_last()).closers;
        let after = pending(text).closers;
        assert forall|i: int| 0 <= i < after.len() implies #[trigger] after[i] == '}' || after[i]
            == ']' by {
            if i < before.len() {
                assert(before[i] == '}' || before[i] == ']');
                assert(after[i] == before[i]);
            }
        }
    }
}

/// Writing the owed closers, the innermost first, settles them.
proof fn closers_settle(base: Seq<char>, owed: Seq<char>)
    requires
        pending(base) == (Pending { closers: owed, ..nothing_pending() }),
        forall|i: int| 0 <= i < owed.len() ==> #[trigger] owed[i] == '}' || owed[i] == ']',
    ensures
        pending(base + owed.reverse()) == nothing_pending(),
    decreases owed.len(),
{
    if owed.len() == 0 {
        assert(base + owed.reverse() =~= base);
        assert(owed =~= Seq::empty());
    } else {
        let next = base.push(owed.last());
        assert(next.drop_last() =~= base);
        let rest = owed.drop_last();
        closers_settle(next, rest);
        assert(next + rest.reverse() =~= base + owed.reverse());
    }
}

/// Closes what a truncated JSON text leaves open.
///
/// Unclosed strings are closed first, then unclosed objects and arrays from the
/// innermost outwards. Returns `None` where the text leaves nothing open, where
/// a closer is out of place, and where the text ends behind a backslash.
pub fn try_repair_truncated_json(text: &str) -> (r: Option<String>)
    ensures
        r is Some <==> repaired(text@) is Some,
        r matches Some(s) ==> s@ == repaired(text@)->0,
{
    let chars = chars_of(text);
    let mut closers: Vec<char> = Vec::new();
    let mut in_string = false;
    let mut escaped = false;
    let mut i: usize = 0;
    assert(chars@.take(0) =~= Seq::empty());
    while i < chars.len()
        invariant
            i <= chars.len(),
            chars@ == text@,
            pending(chars@.take(i as int)) == (Pending {
                closers: closers@,
                in_string,
                escaped,
                broken: false,
            }),
        decreases chars.len() - i,
    {
        let c = chars[i];
        proof {
            assert(chars@.take(i + 1).drop_last() =~= chars@.take(i as int));
        }
        if in_string {
            if escaped {
                escaped = false;
            } else if c == '\\' {
                escaped = true;
            } else if c == '"' {
                in_string = false;
            }
        } else if c == '"' {
            in_string = true;
        } else if c == '{' {
            closers.push('}');
        } else if c == '[' {
            closers.push(']');
        } else if c == '}' || c == ']' {
            if closers.len() > 0 && closers[closers.len() - 1] == c {
                let ghost before = closers@;
                closers.pop();
                assert(closers@ =~= before.drop_last());
            } else {
                proof {
                    lemma_broken_stays(chars@, i + 1);
                }
                return None;
            }
        }
        i = i + 1;
    }
    assert(chars@.take(chars.len() as int) =~= chars@);
    if escaped || (!in_string && closers.len() == 0) {
        return None;
    }
    proof {
        reveal_strlit("\"");
        reveal_strlit("}");
        reveal_strlit("]");
        lemma_pending_shape(text@);
    }
    let mut out = text.to_owned();
    if in_string {
        out.append("\"");
    }
    let ghost base = out@;
    let n: usize = closers.len();
    let mut k: usize = n;
    assert(closers@.reverse().take(0) =~= Seq::empty());
    while k > 0
        invariant
            k <= n,
            n == closers.len(),
            out@ == base + closers@.reverse().take(n - k),
            "}"@ == seq!['}'],
            "]"@ == seq![']'],
            forall|j: int| 0 <= j < closers.len() ==> #[trigger] closers@[j] == '}' || closers@[j] == ']',
        decreases k,
    {
        k = k - 1;
        if closers[k] == '}' {
            out.append("}");
        } else {
            out.append("]");
        }
        proof {
            assert(closers@.reverse()[n - k - 1] == closers@[k as int]);
            assert(closers@.reverse().take(n - k) =~= closers@.reverse().take(n - k - 1).push(
                closers@[k as int],
            ));
        }
    }
    assert(closers@.reverse().take(n as int) =~= closers@.reverse());
    assert(out@ =~= text@ + closing(pending(text@)));
    Some(out)
}

/// Once a closer was out of place, no later text mends it.
proof fn lemma_broken_stays(text: Seq<char>, i: int)
    requires
        0 <= i <= text.len(),
        pending(text.take(i)).broken,
    ensures
        pending(text).broken,
    decreases text.len() - i,
{
    if i == text.len() {
        assert(text.take(i) =~= text);
    } else {
        assert(text.take(i + 1).drop_last() =~= text.take(i));
        lemma_broken_stays(text, i + 1);
    }
}

/// One step within a string: a character, or a backslash and the character that it
/// escapes.
pub enum Unit {
    /// A character other than a quote or a backslash.
    Plain(char),
    /// A character behind a backslash.
    Escaped(char),
}

/// The text of one step within a string.
pub open spec fn unit_text(u: Unit) -> Seq<char> {
    match u {
        Unit::Plain(c) => seq![c],
        Unit::Escaped(c) => seq!['\\', c],
    }
}

/// A step that does not end the string.
pub open spec fn unit_fits(u: Unit) -> bool {
    u matches Unit::Plain(c) ==> c != '"' && c != '\\'
}

/// The text of the steps within a string.
pub open spec fn units_text(units: Seq<Unit>) -> Seq<char>
    decreases units.len(),
{
    if units.len() == 0 {
        Seq::empty()
    } else {
        units_text(units.drop_last()) + unit_text(units.last())
    }
}

/// No step ends the string.
pub open spec fn units_fit(units: Seq<Unit>) -> bool {
    forall|i: int| 0 <= i < units.len() ==> unit_fits(#[trigger] units[i])
}

/// A text in which everything that is opened is closed.
pub enum Nested {
    /// Nothing.
    Nothing,
    /// A text and a character that neither opens nor closes anything.
    Char(Box<Nested>, char),
    /// A text and a string.
    Quoted(Box<Nested>, Seq<Unit>),
    /// A text and an object, with what stands in it.
    Braces(Box<Nested>, Box<Nested>),
    /// A text and an array, with what stands in it.
    Brackets(Box<Nested>, Box<Nested>),
}

/// The characters of a text in which everything is closed.
pub open spec fn nested_text(n: Nested) -> Seq<char>
    decreases n,
{
    match n {
        Nested::Nothing => Seq::empty(),
        Nested::Char(before, c) => nested_text(*before) + seq![c],
        Nested::Quoted(before, units) => nested_text(*before) + seq!['"'] + units_text(units)
            + seq!['"'],
        Nested::Braces(before, inner) => nested_text(*before) + seq!['{'] + nested_text(*inner)
            + seq!['}'],
        Nested::Brackets(before, inner) => nested_text(*before) + seq!['['] + nested_text(*inner)
            + seq![']'],
    }
}

/// The text is what it is said to be: single characters open and close nothing, and
/// strings end where they are said to.
pub open spec fn nested_fits(n: Nested) -> bool
    decreases n,
{
    match n {
        Nested::Nothing => true,
        Nested::Char(before, c) => nested_fits(*before) && c != '"' && c != '{' && c != '}' && c
            != '[' && c != ']',
        Nested::Quoted(before, units) => nested_fits(*before) && units_fit(units),
        Nested::Braces(before, inner) => nested_fits(*before) && nested_fits(*inner),
        Nested::Brackets(before, inner) => nested_fits(*before) && nested_fits(*inner),
    }
}

/// A text that may have been cut off: what is complete, and what is open behind it.
pub enum Cut {
    /// Nothing is open.
    Complete(Nested),
    /// A string is open.
    InString(Nested, Seq<Unit>),
    /// An object is open.
    InBraces(Nested, Box<Cut>),
    /// An array is open.
    InBrackets(Nested, Box<Cut>),
}

/// The text is what it is said to be.
pub open spec fn cut_fits(c: Cut) -> bool
    decreases c,
{
    match c {
        Cut::Complete(n) => nested_fits(n),
        Cut::InString(n, units) => nested_fits(n) && units_fit(units),
        Cut::InBraces(n, inner) => nested_fits(n) && cut_fits(*inner),
        Cut::InBrackets(n, inner) => nested_fits(n) && cut_fits(*inner),
    }
}

/// The characters up to where the text was cut off.
pub open spec fn cut_text(c: Cut) -> Seq<char>
    decreases c,
{
    match c {
        Cut::Complete(n) => nested_text(n),
        Cut::InString(n, units) => nested_text(n) + seq!['"'] + units_text(units),
        Cut::InBraces(n, inner) => nested_text(n) + seq!['{'] + cut_text(*inner),
        Cut::InBrackets(n, inner) => nested_text(n) + seq!['['] + cut_text(*inner),
    }
}

/// The text with everything closed that was open where it was cut off.
pub open spec fn whole_text(c: Cut) -> Seq<char>
    decreases c,
{
    match c {
        Cut::Complete(n) => nested_text(n),
        Cut::InString(n, units) => nested_text(n) + seq!['"'] + units_text(units) + seq!['"'],
        Cut::InBraces(n, inner) => nested_text(n) + seq!['{'] + whole_text(*inner) + seq!['}'],
        Cut::InBrackets(n, inner) => nested_text(n) + seq!['['] + whole_text(*inner) + seq![']'],
    }
}

/// The bracket that closes the innermost object or array that is open outside a
/// string; none where a string or nothing is open.
pub open spec fn innermost_closer(c: Cut, outer: Option<char>) -> Option<char>
    decreases c,
{
    match c {
        Cut::Complete(_) => outer,
        Cut::InString(_, _) => None,
        Cut::InBraces(_, inner) => innermost_closer(*inner, Some('}')),
        Cut::InBrackets(_, inner) => innermost_closer(*inner, Some(']')),
    }
}

/// A string is open where the text was cut off.
pub open spec fn string_is_open(c: Cut) -> bool
    decreases c,
{
    match c {
        Cut::Complete(_) => false,
        Cut::InString(_, _) => true,
        Cut::InBraces(_, inner) => string_is_open(*inner),
        Cut::InBrackets(_, inner) => string_is_open(*inner),
    }
}

/// Whatever a text leaves open when it is cut off, however deep, is closed: the
/// repair is the whole text, with the string, the objects and the arrays that were
/// open closed, and nothing else. Where nothing was open there is nothing to repair.
pub proof fn every_cut_is_repaired(c: Cut)
    requires
        cut_fits(c),
    ensures
        c is Complete ==> repaired(cut_text(c)) is None,
        !(c is Complete) ==> repaired(cut_text(c)) == Some(whole_text(c)),
{
    cut_is_pending(c, Seq::empty());
    assert(Seq::<char>::empty() + cut_text(c) =~= cut_text(c));
    let q = pending(cut_text(c));
    if !(c is Complete) {
        assert(q.closers =~= owed(c));
        cut_is_completed(c, q);
    }
}

/// A text that was cut off behind a backslash in a string, or that holds a closer
/// which is not that of the innermost object or array that is open, is not repaired,
/// whatever stands behind the closer.
pub proof fn what_cannot_be_repaired(c: Cut, closer: char, after: Seq<char>)
    requires
        cut_fits(c),
    ensures
        string_is_open(c) ==> repaired(cut_text(c) + seq!['\\']) is None,
        !string_is_open(c) && (closer == '}' || closer == ']') && innermost_closer(c, None) != Some(
            closer,
        ) ==> repaired(cut_text(c) + seq![closer] + after) is None,
{
    cut_is_pending(c, Seq::empty());
    assert(Seq::<char>::empty() + cut_text(c) =~= cut_text(c));
    let t = cut_text(c);
    if string_is_open(c) {
        let u = t + seq!['\\'];
        assert(u.drop_last() =~= t);
    } else if closer == '}' || closer == ']' {
        let u = t + seq![closer];
        assert(u.drop_last() =~= t);
        if innermost_closer(c, None) != Some(closer) {
            let all = u + after;
            assert(all.take(u.len() as int) =~= u);
            lemma_broken_stays(all, u.len() as int);
        }
    }
}

/// An object that lost its last brace gets it back, whatever stands in it; so does an
/// array.
pub proof fn last_closer_comes_back(n: Nested, inner: Nested)
    requires
        nested_fits(n),
        nested_fits(inner),
    ensures
        repaired(nested_text(n) + seq!['{'] + nested_text(inner)) == Some(
            nested_text(n) + seq!['{'] + nested_text(inner) + seq!['}'],
        ),
        repaired(nested_text(n) + seq!['['] + nested_text(inner)) == Some(
            nested_text(n) + seq!['['] + nested_text(inner) + seq![']'],
        ),
{
    reveal_with_fuel(cut_fits, 2);
    reveal_with_fuel(cut_text, 2);
    reveal_with_fuel(whole_text, 2);
    every_cut_is_repaired(Cut::InBraces(n, Box::new(Cut::Complete(inner))));
    every_cut_is_repaired(Cut::InBrackets(n, Box::new(Cut::Complete(inner))));
}

/// A character more.
proof fn one_more(t: Seq<char>, c: char)
    ensures
        pending(t + seq![c]) == pending_step(pending(t), c),
{
    assert((t + seq![c]).drop_last() =~= t);
    assert((t + seq![c]).last() == c);
}

/// What stands in a string changes nothing.
proof fn units_change_nothing(t: Seq<char>, units: Seq<Unit>)
    requires
        units_fit(units),
        !pending(t).broken,
        pending(t).in_string,
        !pending(t).escaped,
    ensures
        pending(t + units_text(units)) == pending(t),
    decreases units.len(),
{
    if units.len() == 0 {
        assert(t + units_text(units) =~= t);
    } else {
        let rest = units.drop_last();
        assert forall|i: int| 0 <= i < rest.len() implies unit_fits(#[trigger] rest[i]) by {
            assert(rest[i] == units[i]);
        }
        units_change_nothing(t, rest);
        let u = t + units_text(rest);
        assert(unit_fits(units[units.len() - 1]));
        match units.last() {
            Unit::Plain(c) => {
                one_more(u, c);
                assert(t + units_text(units) =~= u + seq![c]);
            },
            Unit::Escaped(c) => {
                one_more(u, '\\');
                one_more(u + seq!['\\'], c);
                assert(t + units_text(units) =~= u + seq!['\\'] + seq![c]);
            },
        }
    }
}

/// A text in which everything is closed changes nothing.
proof fn nested_changes_nothing(t: Seq<char>, n: Nested)
    requires
        nested_fits(n),
        !pending(t).broken,
        !pending(t).in_string,
        !pending(t).escaped,
    ensures
        pending(t + nested_text(n)) == pending(t),
    decreases n,
{
    match n {
        Nested::Nothing => {
            assert(t + nested_text(n) =~= t);
        },
        Nested::Char(before, c) => {
            nested_changes_nothing(t, *before);
            one_more(t + nested_text(*before), c);
            assert(t + nested_text(n) =~= t + nested_text(*before) + seq![c]);
        },
        Nested::Quoted(before, units) => {
            nested_changes_nothing(t, *before);
            let a = t + nested_text(*before);
            one_more(a, '"');
            units_change_nothing(a + seq!['"'], units);
            one_more(a + seq!['"'] + units_text(units), '"');
            assert(t + nested_text(n) =~= a + seq!['"'] + units_text(units) + seq!['"']);
        },
        Nested::Braces(before, inner) => {
            nested_changes_nothing(t, *before);
            let a = t + nested_text(*before);
            one_more(a, '{');
            nested_changes_nothing(a + seq!['{'], *inner);
            one_more(a + seq!['{'] + nested_text(*inner), '}');
            assert(pending(a).closers.push('}').drop_last() =~= pending(a).closers);
            assert(t + nested_text(n) =~= a + seq!['{'] + nested_text(*inner) + seq!['}']);
        },
        Nested::Brackets(before, inner) => {
            nested_changes_nothing(t, *before);
            let a = t + nested_text(*before);
            one_more(a, '[');
            nested_changes_nothing(a + seq!['['], *inner);
            one_more(a + seq!['['] + nested_text(*inner), ']');
            assert(pending(a).closers.push(']').drop_last() =~= pending(a).closers);
            assert(t + nested_text(n) =~= a + seq!['['] + nested_text(*inner) + seq![']']);
        },
    }
}

/// The closers that a cut leaves owed, the outermost first.
spec fn owed(c: Cut) -> Seq<char>
    decreases c,
{
    match c {
        Cut::Complete(_) => Seq::empty(),
        Cut::InString(_, _) => Seq::empty(),
        Cut::InBraces(_, inner) => seq!['}'] + owed(*inner),
        Cut::InBrackets(_, inner) => seq![']'] + owed(*inner),
    }
}

/// What is pending where a text was cut off.
proof fn cut_is_pending(c: Cut, t: Seq<char>)
    requires
        cut_fits(c),
        !pending(t).broken,
        !pending(t).in_string,
        !pending(t).escaped,
    ensures
        pending(t + cut_text(c)) == (Pending {
            closers: pending(t).closers + owed(c),
            in_string: string_is_open(c),
            escaped: false,
            broken: false,
        }),
        ({
            let all = pending(t).closers + owed(c);
            let outer = if pending(t).closers.len() > 0 {
                Some(pending(t).closers.last())
            } else {
                None
            };
            !string_is_open(c) ==> innermost_closer(c, outer) == (if all.len() > 0 {
                Some(all.last())
            } else {
                None
            })
        }),
    decreases c,
{
    match c {
        Cut::Complete(n) => {
            nested_changes_nothing(t, n);
            assert(pending(t).closers + owed(c) =~= pending(t).closers);
        },
        Cut::InString(n, units) => {
            nested_changes_nothing(t, n);
            let a = t + nested_text(n);
            one_more(a, '"');
            units_change_nothing(a + seq!['"'], units);
            assert(t + cut_text(c) =~= a + seq!['"'] + units_text(units));
            assert(pending(t).closers + owed(c) =~= pending(t).closers);
        },
        Cut::InBraces(n, inner) => {
            nested_changes_nothing(t, n);
            let a = t + nested_text(n);
            one_more(a, '{');
            cut_is_pending(*inner, a + seq!['{']);
            assert(t + cut_text(c) =~= a + seq!['{'] + cut_text(*inner));
            assert(pending(t).closers.push('}') + owed(*inner) =~= pending(t).closers + owed(c));
        },
        Cut::InBrackets(n, inner) => {
            nested_changes_nothing(t, n);
            let a = t + nested_text(n);
            one_more(a, '[');
            cut_is_pending(*inner, a + seq!['[']);
            assert(t + cut_text(c) =~= a + seq!['['] + cut_text(*inner));
            assert(pending(t).closers.push(']') + owed(*inner) =~= pending(t).closers + owed(c));
        },
    }
}

/// What closes a cut, behind the text, makes it whole.
proof fn cut_is_completed(c: Cut, p: Pending)
    requires
        p.closers == owed(c),
        p.in_string == string_is_open(c),
    ensures
        cut_text(c) + closing(p) == whole_text(c),
    decreases c,
{
    match c {
        Cut::Complete(n) => {
            assert(closing(p) =~= Seq::empty());
            assert(cut_text(c) + closing(p) =~= whole_text(c));
        },
        Cut::InString(n, units) => {
            assert(closing(p) =~= seq!['"']);
            assert(cut_text(c) + closing(p) =~= whole_text(c));
        },
        Cut::InBraces(n, inner) => {
            let q = Pending { closers: owed(*inner), ..p };
            cut_is_completed(*inner, q);
            assert((seq!['}'] + owed(*inner)).reverse() =~= owed(*inner).reverse() + seq!['}']);
            assert(closing(p) =~= closing(q) + seq!['}']);
            assert(cut_text(c) + closing(p) =~= nested_text(n) + seq!['{'] + (cut_text(*inner)
                + closing(q)) + seq!['}']);
        },
        Cut::InBrackets(n, inner) => {
            let q = Pending { closers: owed(*inner), ..p };
            cut_is_completed(*inner, q);
            assert((seq![']'] + owed(*inner)).reverse() =~= owed(*inner).reverse() + seq![']']);
            assert(closing(p) =~= closing(q) + seq![']']);
            assert(cut_text(c) + closing(p) =~= nested_text(n) + seq!['['] + (cut_text(*inner)
                + closing(q)) + seq![']']);
        },
    }
}

/// A cut with one more character behind it, where that is no misplaced closer and no
/// backslash in a string.
spec fn grown(c: Cut, ch: char) -> Cut
    decreases c,
{
    match c {
        Cut::Complete(n) => if ch == '"' {
            Cut::InString(n, Seq::empty())
        } else if ch == '{' {
            Cut::InBraces(n, Box::new(Cut::Complete(Nested::Nothing)))
        } else if ch == '[' {
            Cut::InBrackets(n, Box::new(Cut::Complete(Nested::Nothing)))
        } else {
            Cut::Complete(Nested::Char(Box::new(n), ch))
        },
        Cut::InString(n, units) => if ch == '"' {
            Cut::Complete(Nested::Quoted(Box::new(n), units))
        } else {
            Cut::InString(n, units.push(Unit::Plain(ch)))
        },
        Cut::InBraces(n, inner) => match *inner {
            Cut::Complete(m) => if ch == '}' {
                Cut::Complete(Nested::Braces(Box::new(n), Box::new(m)))
            } else {
                Cut::InBraces(n, Box::new(grown(*inner, ch)))
            },
            _ => Cut::InBraces(n, Box::new(grown(*inner, ch))),
        },
        Cut::InBrackets(n, inner) => match *inner {
            Cut::Complete(m) => if ch == ']' {
                Cut::Complete(Nested::Brackets(Box::new(n), Box::new(m)))
            } else {
                Cut::InBrackets(n, Box::new(grown(*inner, ch)))
            },
            _ => Cut::InBrackets(n, Box::new(grown(*inner, ch))),
        },
    }
}

/// A cut in an open string with an escaped character behind it.
spec fn grown_escaped(c: Cut, ch: char) -> Cut
    decreases c,
{
    match c {
        Cut::Complete(n) => c,
        Cut::InString(n, units) => Cut::InString(n, units.push(Unit::Escaped(ch))),
        Cut::InBraces(n, inner) => Cut::InBraces(n, Box::new(grown_escaped(*inner, ch))),
        Cut::InBrackets(n, inner) => Cut::InBrackets(n, Box::new(grown_escaped(*inner, ch))),
    }
}

/// One more step within a string.
proof fn lemma_units_push(units: Seq<Unit>, u: Unit)
    ensures
        units_text(units.push(u)) == units_text(units) + unit_text(u),
        units_fit(units) && unit_fits(u) ==> units_fit(units.push(u)),
{
    assert(units.push(u).drop_last() =~= units);
}

/// A cut that grew has the character more.
proof fn lemma_grown(c: Cut, ch: char, outer: Option<char>)
    requires
        cut_fits(c),
        string_is_open(c) ==> ch != '\\',
        !string_is_open(c) && (ch == '}' || ch == ']') ==> innermost_closer(c, outer) == Some(ch)
            && !(c is Complete),
    ensures
        cut_fits(grown(c, ch)),
        cut_text(grown(c, ch)) == cut_text(c) + seq![ch],
    decreases c,
{
    reveal_with_fuel(grown, 2);
    reveal_with_fuel(cut_fits, 2);
    reveal_with_fuel(cut_text, 2);
    reveal_with_fuel(innermost_closer, 2);
    reveal_with_fuel(string_is_open, 2);
    reveal_with_fuel(nested_fits, 2);
    reveal_with_fuel(nested_text, 2);
    match c {
        Cut::Complete(n) => {
            assert(cut_text(grown(c, ch)) =~= cut_text(c) + seq![ch]);
        },
        Cut::InString(n, units) => {
            lemma_units_push(units, Unit::Plain(ch));
            assert(cut_text(grown(c, ch)) =~= cut_text(c) + seq![ch]);
        },
        Cut::InBraces(n, inner) => {
            if !(*inner is Complete && ch == '}') {
                lemma_grown(*inner, ch, Some('}'));
            }
            assert(cut_text(grown(c, ch)) =~= cut_text(c) + seq![ch]);
        },
        Cut::InBrackets(n, inner) => {
            if !(*inner is Complete && ch == ']') {
                lemma_grown(*inner, ch, Some(']'));
            }
            assert(cut_text(grown(c, ch)) =~= cut_text(c) + seq![ch]);
        },
    }
}

/// A cut that grew by an escaped character has it more.
proof fn lemma_grown_escaped(c: Cut, ch: char)
    requires
        cut_fits(c),
        string_is_open(c),
    ensures
        cut_fits(grown_escaped(c, ch)),
        cut_text(grown_escaped(c, ch)) == cut_text(c) + seq!['\\', ch],
    decreases c,
{
    match c {
        Cut::Complete(n) => {},
        Cut::InString(n, units) => {
            lemma_units_push(units, Unit::Escaped(ch));
            assert(cut_text(grown_escaped(c, ch)) =~= cut_text(c) + seq!['\\', ch]);
        },
        Cut::InBraces(n, inner) => {
            lemma_grown_escaped(*inner, ch);
            assert(cut_text(grown_escaped(c, ch)) =~= cut_text(c) + seq!['\\', ch]);
        },
        Cut::InBrackets(n, inner) => {
            lemma_grown_escaped(*inner, ch);
            assert(cut_text(grown_escaped(c, ch)) =~= cut_text(c) + seq!['\\', ch]);
        },
    }
}

/// A text is a cut with `rest` behind it, which is nothing, or a backslash in an open
/// string, or begins with a misplaced closer.
pub open spec fn divides(text: Seq<char>, c: Cut, rest: Seq<char>) -> bool {
    &&& cut_fits(c)
    &&& text == cut_text(c) + rest
    &&& rest.len() > 0 ==> {
        ||| string_is_open(c) && rest == seq!['\\']
        ||| !string_is_open(c) && (rest[0] == '}' || rest[0] == ']') && innermost_closer(c, None)
            != Some(rest[0])
    }
}

/// Every text can be divided so, and what the repair does follows: a text that leaves
/// something open, has no misplaced closer and does not end behind a backslash in a
/// string is repaired, to the whole text; no other text is.
pub proof fn every_text_is_repaired_or_cannot_be(text: Seq<char>) -> (parts: (Cut, Seq<char>))
    ensures
        divides(text, parts.0, parts.1),
        repaired(text) is Some <==> parts.1.len() == 0 && !(parts.0 is Complete),
        repaired(text) matches Some(r) ==> r == whole_text(parts.0),
{
    let parts = lemma_divided(text);
    let (c, rest) = parts;
    if rest.len() == 0 {
        assert(cut_text(c) + rest =~= cut_text(c));
        every_cut_is_repaired(c);
    } else {
        let after = rest.drop_first();
        assert(cut_text(c) + rest =~= cut_text(c) + seq![rest[0]] + after);
        what_cannot_be_repaired(c, rest[0], after);
    }
    parts
}

/// Every text can be divided into a cut and what stands behind it.
proof fn lemma_divided(text: Seq<char>) -> (parts: (Cut, Seq<char>))
    ensures
        divides(text, parts.0, parts.1),
    decreases text.len(),
{
    if text.len() == 0 {
        let c = Cut::Complete(Nested::Nothing);
        assert(text =~= cut_text(c) + Seq::empty());
        (c, Seq::empty())
    } else {
        let before = text.drop_last();
        let ch = text.last();
        let (c, rest) = lemma_divided(before);
        assert(text =~= before + seq![ch]);
        if rest.len() == 0 {
            assert(text =~= cut_text(c) + seq![ch]);
            if string_is_open(c) && ch == '\\' || !string_is_open(c) && (ch == '}' || ch == ']')
                && innermost_closer(c, None) != Some(ch) {
                (c, seq![ch])
            } else {
                lemma_grown(c, ch, None);
                assert(text =~= cut_text(grown(c, ch)) + Seq::empty());
                (grown(c, ch), Seq::empty())
            }
        } else if string_is_open(c) {
            lemma_grown_escaped(c, ch);
            assert(text =~= cut_text(grown_escaped(c, ch)) + Seq::empty());
            (grown_escaped(c, ch), Seq::empty())
        } else {
            assert(text =~= cut_text(c) + rest.push(ch));
            (c, rest.push(ch))
        }
    }
}

/// A call on a text that was cut off gives the whole text, whatever was open, and on a
/// text that leaves nothing open it gives none.
pub proof fn call_repairs_every_cut(text: &str, r: Option<String>, c: Cut)
    requires
        call_ensures(try_repair_truncated_json, (text,), r),
        cut_fits(c),
        text@ == cut_text(c),
    ensures
        r is Some <==> !(c is Complete),
        r matches Some(s) ==> s@ == whole_text(c),
{
    every_cut_is_repaired(c);
}

} // verus!
