//! What `rcgen` can write in DER, the form that certificates have. It writes with `yasna`, which
//! panics on what it cannot write, so that names and dates from elsewhere are tested before.

use vstd::prelude::*;

use crate::keyed;
use crate::text::chars_of;

verus! {

/// A part of a name, as far as it matters to whether it can be written: the object identifier
/// of its kind, where that is none of the usual ones, and its text, where it is one for
/// printing.
pub struct NamePart {
    pub kind: Option<Vec<u64>>,
    pub printable: Option<String>,
}

/// What a [`NamePart`] says.
#[verifier::ext_equal]
pub struct PartView {
    pub kind: Option<Seq<u64>>,
    pub printable: Option<Seq<char>>,
}

impl View for NamePart {
    type V = PartView;

    open spec fn view(&self) -> PartView {
        PartView {
            kind: match self.kind {
                Some(oid) => Some(oid@),
                None => None,
            },
            printable: match self.printable {
                Some(s) => Some(s@),
                None => None,
            },
        }
    }
}

/// A subtree to which an authority's certificate limits names.
pub enum Constraint {
    /// The part of a mail address or of a host name.
    Text(String),
    /// A directory name.
    Name(Vec<NamePart>),
    /// A range of addresses.
    Addresses,
}

/// What a [`Constraint`] says.
pub enum ConstraintView {
    Text(Seq<char>),
    Name(Seq<PartView>),
    Addresses,
}

impl View for Constraint {
    type V = ConstraintView;

    open spec fn view(&self) -> ConstraintView {
        match self {
            Constraint::Text(s) => ConstraintView::Text(s@),
            Constraint::Name(parts) => ConstraintView::Name(keyed::views(parts@)),
            Constraint::Addresses => ConstraintView::Addresses,
        }
    }
}

/// An object identifier that can be written.
pub open spec fn writable(oid: Seq<u64>) -> bool {
    &&& oid.len() >= 2
    &&& oid[0] < 3
    &&& oid[0] >= 2 || oid[1] < 40
    &&& oid[1] < 18_446_744_073_709_551_535
}

/// A character that can be written in a text for printing: a letter, a digit, the space, or one
/// of the marks that such a text may hold. The question mark is read as one of them, but not
/// written.
pub open spec fn is_printable(c: char) -> bool {
    ||| c == ' '
    ||| '\'' <= c <= ':' && c != '*'
    ||| c == '='
    ||| 'A' <= c <= 'Z'
    ||| 'a' <= c <= 'z'
}

/// A text for printing that can be written.
pub open spec fn all_printable(s: Seq<char>) -> bool {
    forall|i: int| 0 <= i < s.len() ==> is_printable(#[trigger] s[i])
}

/// A part of a name that can be written.
pub open spec fn part_writable(part: PartView) -> bool {
    &&& part.kind matches Some(oid) ==> writable(oid)
    &&& part.printable matches Some(s) ==> all_printable(s)
}

/// Names whose parts can be written.
pub open spec fn all_writable(parts: Seq<PartView>) -> bool {
    forall|i: int| 0 <= i < parts.len() ==> part_writable(#[trigger] parts[i])
}

/// A constraint that can be written: a text in it is ASCII.
pub open spec fn constraint_writable(c: ConstraintView) -> bool {
    match c {
        ConstraintView::Text(s) => vstd::utf8::is_ascii_chars(s),
        ConstraintView::Name(parts) => all_writable(parts),
        ConstraintView::Addresses => true,
    }
}

/// A date that can be written, given its year where it was read, which may be with an offset,
/// and its year in universal time. From 1950 to 2049 the year is written with two digits, and
/// in universal time, where it must not lie outside those years.
pub open spec fn year_writable(years: (i32, i32)) -> bool {
    1950 <= years.0 < 2050 ==> 1950 <= years.1 < 2050
}

/// Whether an object identifier can be written.
fn can_write(oid: &Vec<u64>) -> (r: bool)
    ensures
        r == writable(oid@),
{
    oid.len() >= 2 && oid[0] < 3 && (oid[0] >= 2 || oid[1] < 40) && oid[1]
        < 18_446_744_073_709_551_535
}

/// Whether a text for printing can be written.
fn can_print(s: &str) -> (r: bool)
    ensures
        r == all_printable(s@),
{
    let chars: Vec<char> = chars_of(s);
    let mut i: usize = 0;
    while i < chars.len()
        invariant
            i <= chars@.len(),
            chars@ == s@,
            forall|j: int| 0 <= j < i ==> is_printable(#[trigger] s@[j]),
        decreases chars.len() - i,
    {
        let c: char = chars[i];
        if !(c == ' ' || ('\'' <= c && c <= ':' && c != '*') || c == '=' || ('A' <= c && c <= 'Z')
            || ('a' <= c && c <= 'z')) {
            assert(!is_printable(s@[i as int]));
            return false;
        }
        i = i + 1;
    }
    true
}

/// Whether a part of a name can be written.
fn can_write_part(part: &NamePart) -> (r: bool)
    ensures
        r == part_writable(part@),
{
    if let Some(oid) = &part.kind {
        if !can_write(oid) {
            return false;
        }
    }
    match &part.printable {
        Some(s) => can_print(s.as_str()),
        None => true,
    }
}

/// Whether the parts of names can be written.
pub(crate) fn can_write_all(parts: &Vec<NamePart>) -> (r: bool)
    ensures
        r == all_writable(keyed::views(parts@)),
{
    let ghost said = keyed::views(parts@);
    let mut i: usize = 0;
    while i < parts.len()
        invariant
            i <= parts@.len(),
            said == keyed::views(parts@),
            forall|j: int| 0 <= j < i ==> part_writable(#[trigger] said[j]),
        decreases parts.len() - i,
    {
        assert(said[i as int] == parts@[i as int]@);
        if !can_write_part(&parts[i]) {
            return false;
        }
        i = i + 1;
    }
    true
}

/// Whether a constraint can be written.
pub(crate) fn can_write_constraint(constraint: &Constraint) -> (r: bool)
    ensures
        r == constraint_writable(constraint@),
{
    match constraint {
        Constraint::Text(s) => s.as_str().is_ascii(),
        Constraint::Name(parts) => can_write_all(parts),
        Constraint::Addresses => true,
    }
}

/// Whether a date can be written, given its years.
pub(crate) fn can_write_year(years: (i32, i32)) -> (r: bool)
    ensures
        r == year_writable(years),
{
    let (here, universal): (i32, i32) = years;
    !(1950 <= here && here < 2050) || (1950 <= universal && universal < 2050)
}

/// The characters that can be written in a text for printing, by their numbers: letters,
/// digits, the space, and the marks between the apostrophe and the colon but for the asterisk,
/// and the equals sign.
pub proof fn printable_characters_by_number(c: char)
    ensures
        is_printable(c) <==> {
            let n = c as int;
            ||| 0x41 <= n < 0x41 + 26
            ||| 0x61 <= n < 0x61 + 26
            ||| 0x30 <= n < 0x30 + 10
            ||| n == 0x20 || n == 0x27 || n == 0x28 || n == 0x29
            ||| n == 0x2b || n == 0x2c || n == 0x2d || n == 0x2e || n == 0x2f
            ||| n == 0x3a || n == 0x3d
        },
{
}

/// An object identifier can be written where it has at least two numbers: the first 0, 1 or 2,
/// and the second below 40 unless the first is 2; the two are written as one number, forty
/// times the first and the second, for which there must be room in 64 bits even where the
/// first is 2. The other numbers do not matter.
pub proof fn identifiers_start_with_two_numbers(first: u64, second: u64, others: Seq<u64>)
    ensures
        !writable(Seq::empty()),
        !writable(seq![first]),
        writable(seq![first, second] + others) <==> {
            &&& first == 0 && second < 40 || first == 1 && second < 40 || first == 2
            &&& 40 * 2 + second < u64::MAX
        },
{
    let oid = seq![first, second] + others;
    assert(oid[0] == first && oid[1] == second);
}

/// A name can be written where each of its parts can: where the object identifier that it
/// names can, and where every character of its text for printing can.
pub proof fn names_are_written_part_by_part(a: Seq<PartView>, part: PartView)
    ensures
        all_writable(Seq::empty()),
        all_writable(a.push(part)) <==> {
            &&& all_writable(a)
            &&& part.kind matches Some(oid) ==> writable(oid)
            &&& part.printable matches Some(s) ==> forall|i: int|
                0 <= i < s.len() ==> is_printable(#[trigger] s[i])
        },
{
    let all = a.push(part);
    if all_writable(all) {
        assert(part_writable(all[a.len() as int]));
        assert forall|i: int| 0 <= i < a.len() implies part_writable(#[trigger] a[i]) by {
            assert(all[i] == a[i]);
        }
    }
}

/// A date whose year lies from 1950 to 2049 where it was read can be written exactly where its
/// year in universal time does, too; any other can be written.
pub proof fn dates_of_our_time_stay_in_it(here: i32, universal: i32)
    ensures
        here < 1950 || here >= 2050 ==> year_writable((here, universal)),
        1950 <= here <= 2049 ==> (year_writable((here, universal)) <==> 1950 <= universal <= 2049),
{
}

/// A part of a name and a constraint say what they hold.
pub proof fn parts_say_what_they_hold(part: NamePart, s: String, parts: Vec<NamePart>)
    ensures
        part.kind matches Some(oid) ==> part@.kind == Some(oid@),
        part.kind is None ==> part@.kind is None,
        part.printable matches Some(t) ==> part@.printable == Some(t@),
        part.printable is None ==> part@.printable is None,
        Constraint::Text(s)@ == ConstraintView::Text(s@),
        Constraint::Name(parts)@ == ConstraintView::Name(keyed::views(parts@)),
        Constraint::Addresses@ == ConstraintView::Addresses,
{
}

/// A constraint can be written where its text is ASCII, or where the name in it can.
pub proof fn constraints_are_written_by_kind(s: Seq<char>, parts: Seq<PartView>)
    ensures
        constraint_writable(ConstraintView::Addresses),
        constraint_writable(ConstraintView::Name(parts)) <==> all_writable(parts),
        constraint_writable(ConstraintView::Text(s)) <==> forall|i: int|
            0 <= i < s.len() ==> 0 <= (#[trigger] s[i]) as int <= 127,
{
}

} // verus!
