use records_and_sequences::e_common_traits::how_hard_was_this_section;
use records_and_sequences::e_common_traits::how_many_hours_did_you_spend_on_this_section;
use records_and_sequences::e_common_traits::{parse_record, record_to_string, Employee, ParseError};
use std::cmp::Ordering;

fn employee(name: &str, experience: u32, wage: u32, uid: u32) -> Employee {
    Employee { name: String::from(name), experience, wage, uid }
}

#[test]
fn employee_from_string_success() {
    let s = String::from("Billy, 4, 5, 345");
    let billy = Employee {
        name: String::from("Billy"),
        experience: 4,
        wage: 5,
        uid: 345,
    };

    assert_eq!(billy, s.try_into().unwrap())
}

#[test]
fn employee_to_string_success() {
    let billy = Employee {
        name: String::from("Billy"),
        experience: 4,
        wage: 5,
        uid: 345,
    };

    assert_eq!(String::from("Billy, 4, 5, 345"), String::from(billy))
}

#[test]
fn employee_ord() {
    let billy = Employee {
        name: String::from("Billy"),
        experience: 4,
        wage: 5,
        uid: 345,
    };
    let susie = Employee {
        name: String::from("Susie"),
        experience: 5,
        wage: 5,
        uid: 347,
    };

    assert!(susie > billy);
}

#[test]
fn employee_neq() {
    let billy = Employee {
        name: String::from("Billy"),
        experience: 4,
        wage: 5,
        uid: 345,
    };
    let susie = Employee {
        name: String::from("Susie"),
        experience: 5,
        wage: 5,
        uid: 347,
    };

    assert!(susie != billy);
}

#[test]
fn equal_uid_means_equal_whatever_else_differs() {
    let a = employee("Billy", 4, 5, 345);
    let b = employee("William", 40, 2, 345);
    assert!(a == b);
    assert!(b == a);
    assert!(!(a != b));
}

#[test]
fn different_uid_means_unequal_whatever_else_agrees() {
    let a = employee("Billy", 4, 5, 345);
    let b = employee("Billy", 4, 5, 346);
    assert!(a != b);
}

#[test]
fn value_is_experience_over_wage_rounded_down() {
    assert_eq!(employee("a", 13, 5, 1).value(), 2);
    assert_eq!(employee("a", 4, 5, 1).value(), 0);
    assert_eq!(employee("a", 5, 5, 1).value(), 1);
    assert_eq!(employee("a", 0, 7, 1).value(), 0);
    assert_eq!(employee("a", u32::MAX, 1, 1).value(), u32::MAX);
    assert_eq!(employee("a", u32::MAX, u32::MAX, 1).value(), 1);
}

#[test]
fn value_of_unpaid_work_is_the_largest() {
    assert_eq!(employee("a", 12, 0, 1).value(), u32::MAX);
    assert_eq!(employee("a", 0, 0, 1).value(), u32::MAX);
}

#[test]
fn order_follows_value_for_different_uids() {
    let low = employee("low", 10, 5, 1);
    let high = employee("high", 30, 5, 2);
    assert_eq!(low.cmp(&high), Ordering::Less);
    assert_eq!(high.cmp(&low), Ordering::Greater);
    assert_eq!(low.partial_cmp(&high), Some(Ordering::Less));
    assert_eq!(high.partial_cmp(&low), Some(Ordering::Greater));
    assert!(low < high);
    assert!(low <= high);
    assert!(high > low);
    assert!(high >= low);
}

#[test]
fn order_ranks_one_uid_as_equal_whatever_the_values() {
    let before = employee("Billy", 1, 5, 345);
    let after = employee("Billy", 500, 5, 345);
    assert_eq!(before.cmp(&after), Ordering::Equal);
    assert_eq!(before.partial_cmp(&after), Some(Ordering::Equal));
    assert!(!(before < after));
    assert!(!(before > after));
    assert!(before <= after);
}

#[test]
fn equal_values_rank_equal_without_being_equal() {
    let a = employee("a", 10, 5, 1);
    let b = employee("b", 11, 5, 2);
    assert_eq!(a.cmp(&b), Ordering::Equal);
    assert_eq!(a.partial_cmp(&b), Some(Ordering::Equal));
    assert!(a != b);
}

#[test]
fn unpaid_work_ranks_above_paid_work() {
    let paid = employee("paid", 1000, 1, 1);
    let unpaid = employee("unpaid", 1, 0, 2);
    assert_eq!(paid.cmp(&unpaid), Ordering::Less);
    assert!(unpaid > paid);
}

#[test]
fn parse_reads_all_four_fields() {
    let jose = parse_record("Jose, 12, 6, 1").unwrap();
    assert_eq!(jose.name, "Jose");
    assert_eq!(jose.experience, 12);
    assert_eq!(jose.wage, 6);
    assert_eq!(jose.uid, 1);
}

#[test]
fn parse_needs_no_space_after_a_comma() {
    let e = parse_record("Billy,4,5,345").unwrap();
    assert_eq!(e.name, "Billy");
    assert_eq!((e.experience, e.wage, e.uid), (4, 5, 345));
}

#[test]
fn parse_drops_white_space_around_each_field() {
    let e = parse_record(" \t Billy \u{a0},\n4\r ,\u{2003}5 ,   345\u{3000}").unwrap();
    assert_eq!(e.name, "Billy");
    assert_eq!((e.experience, e.wage, e.uid), (4, 5, 345));
}

#[test]
fn parse_keeps_the_inside_of_the_name() {
    let e = parse_record("  Billy  Bob\tJr.  , 4, 5, 345").unwrap();
    assert_eq!(e.name, "Billy  Bob\tJr.");
}

#[test]
fn parse_keeps_a_name_that_is_not_ascii() {
    let e = parse_record("Zoë Müller, 4, 5, 345").unwrap();
    assert_eq!(e.name, "Zoë Müller");
    assert_eq!(e.uid, 345);
}

#[test]
fn parse_accepts_an_empty_name() {
    let e = parse_record(", 4, 5, 345").unwrap();
    assert_eq!(e.name, "");
    let e = parse_record("   ,4,5,345").unwrap();
    assert_eq!(e.name, "");
}

#[test]
fn parse_rejects_too_few_fields() {
    assert_eq!(parse_record("a,b"), Err(ParseError::FieldCount));
    assert_eq!(parse_record(""), Err(ParseError::FieldCount));
    assert_eq!(parse_record("Billy"), Err(ParseError::FieldCount));
    assert_eq!(parse_record("Billy, 4, 5"), Err(ParseError::FieldCount));
}

#[test]
fn parse_rejects_too_many_fields() {
    assert_eq!(parse_record("Billy, 4, 5, 345, 6"), Err(ParseError::FieldCount));
    assert_eq!(parse_record("Billy, 4, 5, 345,"), Err(ParseError::FieldCount));
    assert_eq!(parse_record("Bob, Billy, 4, 5, 345"), Err(ParseError::FieldCount));
    assert_eq!(parse_record(",,,,"), Err(ParseError::FieldCount));
}

#[test]
fn parse_rejects_a_field_that_is_no_number() {
    assert_eq!(parse_record("a, x, 1, 1"), Err(ParseError::Experience));
    assert_eq!(parse_record("a, 1, x, 1"), Err(ParseError::Wage));
    assert_eq!(parse_record("a, 1, 1, x"), Err(ParseError::Uid));
    assert_eq!(parse_record("a, , 1, 1"), Err(ParseError::Experience));
    assert_eq!(parse_record("a, 1, 2 3, 1"), Err(ParseError::Wage));
    assert_eq!(parse_record("a, 1, 1, 1.5"), Err(ParseError::Uid));
    assert_eq!(parse_record(",,,"), Err(ParseError::Experience));
}

#[test]
fn parse_rejects_a_negative_number() {
    assert_eq!(parse_record("a, -1, 1, 1"), Err(ParseError::Experience));
    assert_eq!(parse_record("a, 1, -0, 1"), Err(ParseError::Wage));
}

#[test]
fn parse_rejects_a_number_too_large_for_u32() {
    assert_eq!(parse_record("a, 4294967296, 1, 1"), Err(ParseError::Experience));
    assert_eq!(parse_record("a, 1, 4294967300, 1"), Err(ParseError::Wage));
    assert_eq!(parse_record("a, 1, 1, 99999999999999999999999"), Err(ParseError::Uid));
}

#[test]
fn parse_accepts_the_largest_u32() {
    let e = parse_record("a, 4294967295, 4294967295, 4294967295").unwrap();
    assert_eq!((e.experience, e.wage, e.uid), (u32::MAX, u32::MAX, u32::MAX));
}

#[test]
fn parse_accepts_a_plus_sign_and_leading_zeros() {
    let e = parse_record("a, +4, 005, 0000000000000345").unwrap();
    assert_eq!((e.experience, e.wage, e.uid), (4, 5, 345));
    assert_eq!(parse_record("a, +, 1, 1"), Err(ParseError::Experience));
    assert_eq!(parse_record("a, ++1, 1, 1"), Err(ParseError::Experience));
    assert_eq!(parse_record("a, + 1, 1, 1"), Err(ParseError::Experience));
}

#[test]
fn parse_reports_the_first_fault() {
    assert_eq!(parse_record("a, x, y, z"), Err(ParseError::Experience));
    assert_eq!(parse_record("a, 1, y, z"), Err(ParseError::Wage));
    assert_eq!(parse_record("a, x, y"), Err(ParseError::FieldCount));
}

#[test]
fn try_from_gives_the_message_of_the_fault() {
    let wrong_count: Result<Employee, &'static str> = Employee::try_from(String::from("a,b"));
    assert_eq!(wrong_count, Err("Invalid input format"));
    let experience: Result<Employee, &'static str> = String::from("a, x, 1, 1").try_into();
    assert_eq!(experience, Err("Invalid experience"));
    let wage: Result<Employee, &'static str> = String::from("a, 1, x, 1").try_into();
    assert_eq!(wage, Err("Invalid wage"));
    let uid: Result<Employee, &'static str> = String::from("a, 1, 1, x").try_into();
    assert_eq!(uid, Err("Invalid uid"));
}

#[test]
fn try_from_agrees_with_parse_record() {
    let e = Employee::try_from(String::from(" Susie , 5, 5, 347 ")).unwrap();
    assert_eq!(e.name, "Susie");
    assert_eq!((e.experience, e.wage, e.uid), (5, 5, 347));
}

#[test]
fn error_messages() {
    assert_eq!(ParseError::FieldCount.message(), "Invalid input format");
    assert_eq!(ParseError::Experience.message(), "Invalid experience");
    assert_eq!(ParseError::Wage.message(), "Invalid wage");
    assert_eq!(ParseError::Uid.message(), "Invalid uid");
}

#[test]
fn record_to_string_writes_the_exact_line() {
    assert_eq!(record_to_string(employee("Jose", 12, 6, 1)), "Jose, 12, 6, 1");
    assert_eq!(record_to_string(employee("", 0, 0, 0)), ", 0, 0, 0");
    assert_eq!(
        record_to_string(employee("Billy Bob", u32::MAX, 1000, 90)),
        "Billy Bob, 4294967295, 1000, 90"
    );
    assert_eq!(record_to_string(employee(" padded ", 10, 100, 101)), " padded , 10, 100, 101");
}

#[test]
fn round_trip_gives_an_equal_record() {
    let names = ["Billy", "", "Billy Bob", "  padded  ", "Zoë", "x y  z"];
    let numbers = [0u32, 1, 9, 10, 345, 1_000_000, u32::MAX];
    for name in names {
        for experience in numbers {
            for uid in numbers {
                let line = String::from(employee(name, experience, 7, uid));
                let back = Employee::try_from(line).unwrap();
                assert_eq!(back, employee(name, experience, 7, uid));
                assert_eq!(back.name, name.trim());
                assert_eq!(back.experience, experience);
                assert_eq!(back.wage, 7);
                assert_eq!(back.uid, uid);
            }
        }
    }
}

#[test]
fn round_trip_breaks_on_a_comma_in_the_name() {
    let line = String::from(employee("Bob, Billy", 4, 5, 345));
    assert_eq!(line, "Bob, Billy, 4, 5, 345");
    assert_eq!(parse_record(&line), Err(ParseError::FieldCount));
}

#[test]
fn feedback_on_the_record_part() {
    assert_eq!(how_hard_was_this_section(), 255);
    assert_eq!(how_many_hours_did_you_spend_on_this_section(), 4);
}
