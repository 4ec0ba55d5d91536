use tomllib::ast::{
    Array, ArrayValues, Bool, DateTime, FullDate, InlineTable, KeyVal, StrType, TableKeyVals,
    Time, TimeOffset, TimeOffsetAmount, Value, WSSep,
};
use tomllib::primitives::{
    basic_string, boolean, date_time, float, fractional, full_date, integer, key, keyval,
    keyval_sep, literal_string, ml_basic_string, ml_literal_string, quoted_key, string, time,
    time_offset, time_offset_amount, unquoted_key, val,
};

fn owned(s: &str) -> String {
    String::from(s)
}

#[test]
fn test_integer() {
    assert_eq!(integer("345_12_678"), Some((owned("345_12_678"), owned(""))));
}

#[test]
fn test_float() {
    assert_eq!(float("98_7.2_34e-8_8"), Some((owned("98_7.2_34e-8_8"), owned(""))));
}

#[test]
fn test_basic_string() {
    assert_eq!(
        basic_string("\"TÎ»Ã¯Æ¨ Ã¯Æ¨ Ã¡ Î²Ã¡Æ¨Ã¯Ã§ Æ¨Æ­Å™Ã¯Ã±Ï±.\""),
        Some((owned("TÎ»Ã¯Æ¨ Ã¯Æ¨ Ã¡ Î²Ã¡Æ¨Ã¯Ã§ Æ¨Æ­Å™Ã¯Ã±Ï±."), owned("")))
    );
}

#[test]
fn test_ml_basic_string() {
    assert_eq!(
        ml_basic_string("\"\"\"Â£Ã¯Ã±Ã¨ Ã“Ã±Ã¨\nÂ£Ã¯Ã±Ã¨ TÏ‰Ã´\nÂ£Ã¯Ã±Ã¨ TÎ»Å™Ã¨Ã¨\"\"\""),
        Some((owned("Â£Ã¯Ã±Ã¨ Ã“Ã±Ã¨\nÂ£Ã¯Ã±Ã¨ TÏ‰Ã´\nÂ£Ã¯Ã±Ã¨ TÎ»Å™Ã¨Ã¨"), owned("")))
    );
}

#[test]
fn test_literal_string() {
    assert_eq!(literal_string("'Abc ÑŸ'"), Some((owned("Abc ÑŸ"), owned(""))));
}

#[test]
fn test_ml_literal_string() {
    assert_eq!(
        ml_literal_string(r#"'''
                                    Abc ÑŸ
                                    '''"#),
        Some((
            owned("                                    Abc ÑŸ\n                                    "),
            owned("")
        ))
    );
}

#[test]
fn test_string() {
    assert_eq!(
        string("\"Î²Ã¡Æ¨Ã¯Ã§_Æ¨Æ­Å™Ã¯Ã±Ï±\""),
        Some((Value::String(owned("Î²Ã¡Æ¨Ã¯Ã§_Æ¨Æ­Å™Ã¯Ã±Ï±"), StrType::Basic), owned("")))
    );
    assert_eq!(
        string(
            r#""""â‚¥â„“_Î²Ã¡Æ¨Ã¯Ã§_Æ¨Æ­Å™Ã¯Ã±Ï±
Ã±Ãºâ‚¥Î²Ã¨Å™_Æ­Ï‰Ã´
NÃ›MÃŸÃ‰R-THRÃ‰Ã‰
""""#
        ),
        Some((
            Value::String(
                owned(
                    r#"â‚¥â„“_Î²Ã¡Æ¨Ã¯Ã§_Æ¨Æ­Å™Ã¯Ã±Ï±
Ã±Ãºâ‚¥Î²Ã¨Å™_Æ­Ï‰Ã´
NÃ›MÃŸÃ‰R-THRÃ‰Ã‰
"#
                ),
                StrType::MLBasic(owned(""))
            ),
            owned("")
        ))
    );
    assert_eq!(
        string("'Â£ÃŒTÃ‰RÃ‚Â£Â§TRÃ¯NG'"),
        Some((Value::String(owned("Â£ÃŒTÃ‰RÃ‚Â£Â§TRÃ¯NG"), StrType::Literal), owned("")))
    );
    assert_eq!(
        string(
            r#"'''Â§Æ¥Å™Ã¯Æ­Ã¨
Ã‡Ã´Æ™Ã¨
ÃžÃ¨Æ¥Æ¨Ã¯
'''"#
        ),
        Some((
            Value::String(
                owned(
                    r#"Â§Æ¥Å™Ã¯Æ­Ã¨
Ã‡Ã´Æ™Ã¨
ÃžÃ¨Æ¥Æ¨Ã¯
"#
                ),
                StrType::MLLiteral(owned(""))
            ),
            owned("")
        ))
    );
}

#[test]
fn test_boolean() {
    assert_eq!(boolean("true"), Some((Bool::True, owned(""))));
    assert_eq!(boolean("false"), Some((Bool::False, owned(""))));
}

#[test]
fn test_fractional() {
    assert_eq!(fractional(".03856"), Some((owned(".03856"), owned("03856"), owned(""))));
}

#[test]
fn test_time() {
    assert_eq!(
        time("11:22:33.456"),
        Some((Time::new_str("11", "22", "33", Some("456")), owned("")))
    );
    assert_eq!(time("04:05:06"), Some((Time::new_str("04", "05", "06", None), owned(""))));
}

#[test]
fn test_time_offset_amount() {
    assert_eq!(
        time_offset_amount("+12:34"),
        Some((TimeOffsetAmount::new_str("+", "12", "34"), owned("")))
    );
}

#[test]
fn test_time_offset() {
    assert_eq!(
        time_offset("+12:34"),
        Some((TimeOffset::Time(TimeOffsetAmount::new_str("+", "12", "34")), owned("")))
    );
    assert_eq!(time_offset("Z"), Some((TimeOffset::Z, owned(""))));
}

#[test]
fn test_full_date() {
    assert_eq!(full_date("1942-12-07"), Some((FullDate::new_str("1942", "12", "07"), owned(""))));
}

#[test]
fn test_date_time() {
    assert_eq!(
        date_time("1999-03-21T20:15:44.5-07:00"),
        Some((
            DateTime::new_str(
                "1999",
                "03",
                "21",
                "20",
                "15",
                "44",
                Some("5"),
                TimeOffset::Time(TimeOffsetAmount::new_str("-", "07", "00"))
            ),
            owned("")
        ))
    );
}

#[test]
fn test_unquoted_key() {
    assert_eq!(unquoted_key("Un-Quoted_Key"), Some((owned("Un-Quoted_Key"), owned(""))));
}

#[test]
fn test_quoted_key() {
    assert_eq!(
        quoted_key("\"QÃºÃ´Æ­Ã¨Î´KÃ¨Â¥\""),
        Some((owned("\"QÃºÃ´Æ­Ã¨Î´KÃ¨Â¥\""), owned("")))
    );
}

#[test]
fn test_key() {
    assert_eq!(
        key("\"GÅ™Ã¡Æ¥Ã¨Æ’Å™ÃºÃ¯Æ­\""),
        Some((owned("\"GÅ™Ã¡Æ¥Ã¨Æ’Å™ÃºÃ¯Æ­\""), owned("")))
    );
    assert_eq!(key("_is-key"), Some((owned("_is-key"), owned(""))));
}

#[test]
fn test_keyval_sep() {
    assert_eq!(keyval_sep("\t \t= \t"), Some((WSSep::new_str("\t \t", " \t"), owned(""))));
}

#[test]
fn test_val() {
    assert_eq!(
        val("[4,9]"),
        Some((
            Value::Array(Box::new(Array {
                values: Some(Box::new(ArrayValues {
                    val: Value::Integer(owned("4")),
                    array_sep: Some(WSSep::new_str("", "")),
                    comment_nl: None,
                    array_vals: Some(Box::new(ArrayValues {
                        val: Value::Integer(owned("9")),
                        array_sep: None,
                        comment_nl: None,
                        array_vals: None,
                    })),
                })),
                ws: WSSep::new_str("", ""),
            })),
            owned("")
        ))
    );
    assert_eq!(
        val("{\"Â§Ã´â‚¥Ã¨ ÃžÃ¯Ï±\"='TÃ¡Æ¨Æ­Â¥ ÃžÃ´Å™Æ™'}"),
        Some((
            Value::InlineTable(Box::new(InlineTable {
                keyvals: TableKeyVals {
                    key: owned("\"Â§Ã´â‚¥Ã¨ ÃžÃ¯Ï±\""),
                    keyval_sep: WSSep::new_str("", ""),
                    val: Value::String(owned("TÃ¡Æ¨Æ­Â¥ ÃžÃ´Å™Æ™"), StrType::Literal),
                    table_sep: None,
                    keyvals: None,
                },
                ws: WSSep::new_str("", ""),
            })),
            owned("")
        ))
    );
    assert_eq!(
        val("2112-09-30T12:33:01.345-11:30"),
        Some((
            Value::DateTime(DateTime::new_str(
                "2112",
                "09",
                "30",
                "12",
                "33",
                "01",
                Some("345"),
                TimeOffset::Time(TimeOffsetAmount::new_str("-", "11", "30"))
            )),
            owned("")
        ))
    );
    assert_eq!(val("3487.3289E+22"), Some((Value::Float(owned("3487.3289E+22")), owned(""))));
    assert_eq!(val("8932838"), Some((Value::Integer(owned("8932838")), owned(""))));
    assert_eq!(val("false"), Some((Value::Boolean(Bool::False), owned(""))));
    assert_eq!(val("true"), Some((Value::Boolean(Bool::True), owned(""))));
    assert_eq!(
        val("'Â§Ã´â‚¥Ã¨ Â§Æ­Å™Ã¯Ã±Ï±'"),
        Some((Value::String(owned("Â§Ã´â‚¥Ã¨ Â§Æ­Å™Ã¯Ã±Ï±"), StrType::Literal), owned("")))
    );
}

#[test]
fn test_keyval() {
    assert_eq!(
        keyval("Boolean = 84.67"),
        Some((
            KeyVal::new_str("Boolean", WSSep::new_str(" ", " "), Value::Float(owned("84.67"))),
            owned("")
        ))
    );
}

#[test]
fn test_is_keychar() {
    assert!(tomllib::is_keychar('A'));
    assert!(tomllib::is_keychar('z'));
    assert!(tomllib::is_keychar('5'));
    assert!(tomllib::is_keychar('-'));
    assert!(tomllib::is_keychar('_'));
    assert!(!tomllib::is_keychar('.'));
    assert!(!tomllib::is_keychar(' '));
    assert!(!tomllib::is_keychar('"'));
}

#[test]
fn test_val_no_match() {
    assert_eq!(val("?"), None);
    assert_eq!(val("[1"), None);
    assert_eq!(val("{x = 1"), None);
    assert_eq!(val("\"unterminated"), None);
    assert!(val("[1]").is_some());
    assert!(val("{x = 1}").is_some());
}

#[test]
fn test_ml_leading_newline_trimmed() {
    assert_eq!(ml_basic_string("\"\"\"\nX\"\"\""), Some((owned("X"), owned("")))) ;
    assert_eq!(ml_literal_string("'''\r\nX'''"), Some((owned("X"), owned(""))));
    assert_eq!(ml_basic_string("\"\"\"\n\nX\"\"\""), Some((owned("\nX"), owned("")))) ;
}
