use six::error::{numeral, SixError};
use six::builtins::{insert_position, last_position, number_text, position_in, remove_position};
use six::host::{entropy_bits, time_mode, Assoc, Clock, MAX_53};
use six::scope::{declare, reassign};
use six::text::{char_at, replace_char};

#[test]
fn association_names() {
    assert_eq!(Assoc::RuntimeInput.describe(), "input channel");
    assert_eq!(Assoc::RuntimeOutput.describe(), "output channel");
    assert_eq!(Assoc::RuntimeError.describe(), "error channel");
    assert_eq!(Assoc::Closed.describe(), "closed relationship");
}

#[test]
fn entropy_keeps_the_low_53_bits() {
    assert_eq!(entropy_bits(0), 0);
    assert_eq!(entropy_bits(u64::MAX), MAX_53);
    assert_eq!(entropy_bits(1u64 << 53), 0);
    assert_eq!(entropy_bits((1u64 << 60) + 12345), 12345);
    assert_eq!(MAX_53, 9_007_199_254_740_991);
}

#[test]
fn time_modes() {
    assert_eq!(time_mode("utc", 1).unwrap(), Clock::Utc);
    assert_eq!(time_mode("steady", 1).unwrap(), Clock::Steady);
    let e = time_mode("bogus", 4).unwrap_err();
    assert_eq!(e.message, "time mode must be \"utc\" or \"steady\", not \"bogus\"");
    assert_eq!(e.line, Some(4));
    assert!(e.message.contains("utc"));
}

#[test]
fn errors_render_with_their_line() {
    assert_eq!(SixError::at(12, "boom".to_string()).render(), "error (line 12): boom");
    assert_eq!(SixError::new("boom".to_string()).render(), "error: boom");
    assert_eq!(numeral(0), "0");
    assert_eq!(numeral(907), "907");
    assert_eq!(numeral(usize::MAX), usize::MAX.to_string());
}

#[test]
fn builtin_argument_counts() {
    assert!(six::builtins::arity("size", 1, 1, 1, 3).is_ok());
    assert!(six::builtins::arity("insert", 3, 2, 3, 3).is_ok());
    let e = six::builtins::arity("size", 2, 1, 1, 3).unwrap_err();
    assert_eq!(e.message, "'size' expects 1 argument(s) but got 2");
    assert_eq!(e.line, Some(3));
    let e = six::builtins::arity("insert", 0, 2, 3, 7).unwrap_err();
    assert_eq!(e.message, "'insert' expects 2 to 3 argument(s) but got 0");
}

#[test]
fn positions_and_their_errors() {
    assert_eq!(last_position(3, 1, "Group").unwrap(), 2);
    assert_eq!(
        last_position(0, 2, "Group").unwrap_err().message,
        "'$' has no final position in an empty Group"
    );
    assert_eq!(position_in(2, 3, 1, "text").unwrap(), 2);
    let e = position_in(5, 3, 4, "Group").unwrap_err();
    assert_eq!(e.message, "index 5 is out of range for a Group of size 3");
    assert!(e.message.contains("out of range"));
    assert_eq!(e.line, Some(4));
    assert_eq!(insert_position(3, 3, 1).unwrap(), 3);
    assert_eq!(
        insert_position(4, 3, 1).unwrap_err().message,
        "insert position 4 is out of range for a Group of size 3"
    );
    assert_eq!(remove_position(None, 3, 1).unwrap(), 2);
    assert_eq!(
        remove_position(None, 0, 1).unwrap_err().message,
        "cannot remove from an empty Group"
    );
    assert_eq!(remove_position(Some(1), 3, 1).unwrap(), 1);
    assert_eq!(
        remove_position(Some(3), 3, 1).unwrap_err().message,
        "remove position 3 is out of range for a Group of size 3"
    );
}

#[test]
fn number_conversion_text() {
    assert_eq!(number_text(" 1,234.5 \n"), "1234.5");
    assert_eq!(number_text("42"), "42");
    assert_eq!(number_text("   "), "");
    assert_eq!(number_text(",,"), "");
    assert_eq!(number_text("\t-7 "), "-7");
    assert_eq!(number_text("1, 000"), "1 000");
}

#[test]
fn declaring_and_reassigning_names() {
    assert!(declare("x", false, 1).is_ok());
    let e = declare("x", true, 2).unwrap_err();
    assert_eq!(e.line, Some(2));
    assert_eq!(e.message, "'x' is already defined in this scope");
    assert!(e.message.contains("already defined"));
    assert!(reassign("x", false, 1).is_ok());
    assert_eq!(reassign("size", true, 1).unwrap_err().message, "cannot reassign builtin 'size'");
    let e = reassign("PI", false, 3).unwrap_err();
    assert_eq!(e.message, "cannot reassign immutable name 'PI'");
    assert!(e.message.contains("immutable"));
}

#[test]
fn text_positions() {
    assert_eq!(char_at("Dan", 0), "D");
    assert_eq!(char_at("Dan", 2), "n");
    assert_eq!(replace_char("cat", 0, "b", 1).unwrap(), "bat");
    assert_eq!(
        replace_char("cat", 0, "bb", 1).unwrap_err().message,
        "text position assignment expects a single character"
    );
    assert!(replace_char("cat", 1, "", 1).is_err());
}
