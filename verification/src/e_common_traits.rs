//! Employee records: equality by identifier, order by value, and the text
//! line `name, experience, wage, uid` that a record is written as and read
//! from.
use crate::decimal::{
    decimal_text, is_digit, lemma_decimal_text_spells, lemma_parse_decimal_text, parse_u32,
    parse_u32_spec, push_decimal,
};
use crate::fields::{
    chars_of, comma_free, is_space, lemma_split_comma_free, lemma_split_first_field, split_commas,
    split_fields, trim, trim_bounds, trim_end, trim_start,
};
use std::cmp::Ordering;
use vstd::prelude::*;
use vstd::std_specs::cmp::{PartialEqSpecImpl, PartialOrdSpecImpl};
use vstd::std_specs::convert::{FromSpecImpl, TryFromSpecImpl};
use vstd::string::{StrSliceExecFns, StringExecFns};

verus! {

/// A record of an employee at a particular company.
///
/// Two records are equal when they carry the same `uid`, whatever else they
/// hold. Records with different `uid`s are ordered by their value to the
/// company, so two of them may rank as equal in the order without being equal.
#[derive(Debug)]
pub struct Employee {
    /// The name the person likes to be called. It plays no part in equality or
    /// order.
    pub name: String,
    /// Amount of experience, in months, the person has working at this company.
    pub experience: u32,
    /// Hourly wage paid to this employee.
    pub wage: u32,
    /// Unique identifier for this employee.
    pub uid: u32,
}

/// What an [`Employee`] holds, with the name as a sequence of characters.
pub struct EmployeeView {
    /// The characters of the name.
    pub name: Seq<char>,
    /// Months of experience.
    pub experience: u32,
    /// Hourly wage.
    pub wage: u32,
    /// Unique identifier.
    pub uid: u32,
}

impl View for Employee {
    type V = EmployeeView;

    open spec fn view(&self) -> EmployeeView {
        EmployeeView {
            name: self.name@,
            experience: self.experience,
            wage: self.wage,
            uid: self.uid,
        }
    }
}

/// The value that `experience` months of work bring at an hourly wage of
/// `wage`: the months divided by the wage, rounded down. Work that is not paid
/// for has the largest value there is.
pub open spec fn value_score(experience: u32, wage: u32) -> u32 {
    if wage == 0 {
        u32::MAX
    } else {
        experience / wage
    }
}

/// How the number `a` ranks against the number `b`.
pub open spec fn compare_scores(a: u32, b: u32) -> Ordering {
    if a < b {
        Ordering::Less
    } else if a == b {
        Ordering::Equal
    } else {
        Ordering::Greater
    }
}

impl Employee {
    /// Whether `self` and `other` are equal: whether they carry the same `uid`.
    pub open spec fn equals(&self, other: &Employee) -> bool {
        self.uid == other.uid
    }

    /// How `self` ranks against `other`: as equal where they carry the same
    /// `uid`, and else as their values do.
    pub open spec fn compare(&self, other: &Employee) -> Ordering {
        if self.equals(other) {
            Ordering::Equal
        } else {
            compare_scores(
                value_score(self.experience, self.wage),
                value_score(other.experience, other.wage),
            )
        }
    }

    /// The value of this employee to the company: the months of experience
    /// divided by the wage, rounded down, and `u32::MAX` where the wage is 0.
    pub fn value(&self) -> (score: u32)
        ensures
            score == value_score(self.experience, self.wage),
    {
        if self.wage == 0 {
            u32::MAX
        } else {
            self.experience / self.wage
        }
    }

    /// Ranks `self` against `other`.
    pub fn cmp(&self, other: &Employee) -> (order: Ordering)
        ensures
            order == self.compare(other),
    {
        self.partial_cmp(other).unwrap()
    }
}

impl PartialEq for Employee {
    /// Tells whether the two records carry the same `uid`.
    fn eq(&self, other: &Employee) -> (same: bool)
        ensures
            same == self.equals(other),
    {
        self.uid == other.uid
    }
}

impl PartialEqSpecImpl for Employee {
    open spec fn obeys_eq_spec() -> bool {
        true
    }

    open spec fn eq_spec(&self, other: &Employee) -> bool {
        self.equals(other)
    }
}

impl Eq for Employee {}

impl PartialOrd for Employee {
    /// Ranks `self` against `other`; the result is never `None`.
    fn partial_cmp(&self, other: &Employee) -> (order: Option<Ordering>)
        ensures
            order == Some(self.compare(other)),
    {
        if self.uid == other.uid {
            Some(Ordering::Equal)
        } else {
            self.value().partial_cmp(&other.value())
        }
    }
}

impl PartialOrdSpecImpl for Employee {
    open spec fn obeys_partial_cmp_spec() -> bool {
        true
    }

    open spec fn partial_cmp_spec(&self, other: &Employee) -> Option<Ordering> {
        Some(self.compare(other))
    }
}

/// Order and equality part ways on purpose: two records with different
/// `uid`s and the same value rank as equal, and are not equal.
pub proof fn lemma_equal_rank_is_not_equality(a: Employee, b: Employee)
    requires
        a.uid != b.uid,
        value_score(a.experience, a.wage) == value_score(b.experience, b.wage),
    ensures
        a.compare(&b) == Ordering::Equal,
        !a.equals(&b),
{
}

/// Why a line of text is not the text of a record.
#[derive(Debug, Clone, Copy, PartialEq, Eq, Structural)]
pub enum ParseError {
    /// The line does not have four fields: it holds more or fewer than three
    /// commas.
    FieldCount,
    /// The second field is not a number that fits in a `u32`.
    Experience,
    /// The third field is not a number that fits in a `u32`.
    Wage,
    /// The fourth field is not a number that fits in a `u32`.
    Uid,
}

impl ParseError {
    /// The characters of the message for this error.
    pub open spec fn message_text(self) -> Seq<char> {
        match self {
            ParseError::FieldCount => "Invalid input format"@,
            ParseError::Experience => "Invalid experience"@,
            ParseError::Wage => "Invalid wage"@,
            ParseError::Uid => "Invalid uid"@,
        }
    }

    /// A short message that names what is wrong with the line.
    pub fn message(self) -> (text: &'static str)
        ensures
            text@ == self.message_text(),
    {
        match self {
            ParseError::FieldCount => "Invalid input format",
            ParseError::Experience => "Invalid experience",
            ParseError::Wage => "Invalid wage",
            ParseError::Uid => "Invalid uid",
        }
    }
}

/// The separator that is written between two fields of a record.
pub open spec fn separator() -> Seq<char> {
    seq![',', ' ']
}

/// The line that a record is written as: its name, experience, wage and uid,
/// the numbers in decimal, with a comma and a space between each two.
pub open spec fn record_line(record: EmployeeView) -> Seq<char> {
    record.name + separator() + decimal_text(record.experience as nat) + separator()
        + decimal_text(record.wage as nat) + separator() + decimal_text(record.uid as nat)
}

/// What a line is read as.
///
/// The line is cut at its commas, and each field is taken without the white
/// space around it. There must be four fields. The first is the name, as it
/// stands; the other three are the experience, the wage and the uid, each a
/// number that [`parse_u32_spec`] accepts. Of several faults, the first in
/// this order is reported.
pub open spec fn parse_line(line: Seq<char>) -> Result<EmployeeView, ParseError> {
    let fields = split_commas(line);
    if fields.len() != 4 {
        Err(ParseError::FieldCount)
    } else {
        match parse_u32_spec(trim(fields[1])) {
            None => Err(ParseError::Experience),
            Some(experience) => match parse_u32_spec(trim(fields[2])) {
                None => Err(ParseError::Wage),
                Some(wage) => match parse_u32_spec(trim(fields[3])) {
                    None => Err(ParseError::Uid),
                    Some(uid) => Ok(
                        EmployeeView { name: trim(fields[0]), experience, wage, uid },
                    ),
                },
            },
        }
    }
}

/// Reads a record from a line of the form `name, experience, wage, uid`.
///
/// White space around a field does not count, and the name may hold any
/// character but a comma. A line with more or fewer than four fields is
/// refused, and so is one in which the experience, the wage or the uid is not
/// a number that fits in a `u32`; the error names the first field at fault.
pub fn parse_record(line: &str) -> (parsed: Result<Employee, ParseError>)
    ensures
        match parse_line(line@) {
            Ok(record) => parsed matches Ok(employee) && employee@ == record,
            Err(error) => parsed == Err::<Employee, ParseError>(error),
        },
{
    let text = chars_of(line);
    let bounds = split_fields(&text);
    if bounds.len() != 4 {
        return Err(ParseError::FieldCount);
    }
    let (name_from, name_to) = trim_bounds(&text, bounds[0].0, bounds[0].1);
    let (from, to) = trim_bounds(&text, bounds[1].0, bounds[1].1);
    let experience = match parse_u32(&text, from, to) {
        Some(number) => number,
        None => {
            return Err(ParseError::Experience);
        },
    };
    let (from, to) = trim_bounds(&text, bounds[2].0, bounds[2].1);
    let wage = match parse_u32(&text, from, to) {
        Some(number) => number,
        None => {
            return Err(ParseError::Wage);
        },
    };
    let (from, to) = trim_bounds(&text, bounds[3].0, bounds[3].1);
    let uid = match parse_u32(&text, from, to) {
        Some(number) => number,
        None => {
            return Err(ParseError::Uid);
        },
    };
    let name = String::from_str(line.substring_char(name_from, name_to));
    Ok(Employee { name, experience, wage, uid })
}

/// Writes a record as a line of the form `name, experience, wage, uid`.
pub fn record_to_string(employee: Employee) -> (line: String)
    ensures
        line@ == record_line(employee@),
{
    proof {
        reveal_strlit(", ");
        assert(", "@ =~= separator());
    }
    let mut line = employee.name;
    line.append(", ");
    push_decimal(&mut line, employee.experience);
    line.append(", ");
    push_decimal(&mut line, employee.wage);
    line.append(", ");
    push_decimal(&mut line, employee.uid);
    line
}

impl TryFrom<String> for Employee {
    type Error = &'static str;

    /// Reads a record from a line of the form `name, experience, wage, uid`.
    /// A line that is not of this form gives the message of its
    /// [`ParseError`].
    fn try_from(value: String) -> (parsed: Result<Employee, &'static str>)
        ensures
            match parse_line(value@) {
                Ok(record) => parsed matches Ok(employee) && employee@ == record,
                Err(error) => parsed matches Err(message) && message@ == error.message_text(),
            },
    {
        match parse_record(value.as_str()) {
            Ok(employee) => Ok(employee),
            Err(error) => Err(error.message()),
        }
    }
}

impl TryFromSpecImpl<String> for Employee {
    /// A record holds a `String`, and the verifier tells two strings apart
    /// even where their characters agree. So the conversion is described by
    /// the `ensures` of `try_from`, over the characters, and not by
    /// `try_from_spec`.
    open spec fn obeys_try_from_spec() -> bool {
        false
    }

    open spec fn try_from_spec(value: String) -> Result<Employee, &'static str> {
        arbitrary()
    }
}

impl From<Employee> for String {
    /// Writes a record as a line of the form `name, experience, wage, uid`.
    fn from(e: Employee) -> (line: String)
        ensures
            line@ == record_line(e@),
    {
        record_to_string(e)
    }
}

impl FromSpecImpl<Employee> for String {
    /// The verifier tells two strings apart even where their characters
    /// agree. So the conversion is described by the `ensures` of `from`, over
    /// the characters, and not by `from_spec`.
    open spec fn obeys_from_spec() -> bool {
        false
    }

    open spec fn from_spec(e: Employee) -> String {
        arbitrary()
    }
}

/// A separator and the decimal text of a number, taken as a field, are that
/// number once the white space is off.
proof fn lemma_padded_number_field(n: u32)
    ensures
        comma_free(seq![' '] + decimal_text(n as nat)),
        parse_u32_spec(trim(seq![' '] + decimal_text(n as nat))) == Some(n),
{
    let digits = decimal_text(n as nat);
    let field = seq![' '] + digits;
    lemma_decimal_text_spells(n as nat);
    lemma_parse_decimal_text(n);
    assert(is_digit(digits[0]) && is_digit(digits.last()));
    assert(is_space(field[0]));
    assert(field.drop_first() =~= digits);
    assert(trim_start(field) == trim_start(digits));
    assert(trim_start(digits) == digits);
    assert(trim_end(digits) == digits);
    assert forall|i: int| 0 <= i < field.len() implies #[trigger] field[i] != ',' by {
        if i > 0 {
            assert(is_digit(digits[i - 1]));
        }
    }
}

/// Writing a record and reading the line back gives the record again, with
/// the same experience, wage and uid, and so a record equal to the first. The
/// name comes back without the white space around it. This holds of every
/// record whose name has no comma.
pub proof fn lemma_round_trip(record: EmployeeView)
    requires
        comma_free(record.name),
    ensures
        parse_line(record_line(record)) == Ok::<EmployeeView, ParseError>(
            EmployeeView { name: trim(record.name), ..record },
        ),
        parse_line(record_line(record)) matches Ok(back) && back.uid == record.uid,
{
    let comma = seq![','];
    let experience = seq![' '] + decimal_text(record.experience as nat);
    let wage = seq![' '] + decimal_text(record.wage as nat);
    let uid = seq![' '] + decimal_text(record.uid as nat);
    let after_wage = uid;
    let after_experience = wage + comma + after_wage;
    let after_name = experience + comma + after_experience;
    assert(record_line(record) =~= record.name + comma + after_name);
    lemma_padded_number_field(record.experience);
    lemma_padded_number_field(record.wage);
    lemma_padded_number_field(record.uid);
    lemma_split_first_field(record.name, after_name);
    lemma_split_first_field(experience, after_experience);
    lemma_split_first_field(wage, after_wage);
    lemma_split_comma_free(uid);
    assert(split_commas(record_line(record)) =~= seq![record.name, experience, wage, uid]);
}

/// How hard this part was found, on a scale from 0, extremely easy, to 255,
/// extremely hard.
pub fn how_hard_was_this_section() -> (rating: u8)
    ensures
        rating == 255,
{
    255
}

/// How much time, in hours, went into this part.
pub fn how_many_hours_did_you_spend_on_this_section() -> (hours: u8)
    ensures
        hours == 4,
{
    4
}

} // verus!
