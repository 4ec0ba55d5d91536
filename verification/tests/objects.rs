use tomllib::ast::{
    Array, ArrayValues, DateTime, InlineTable, StrType, TableKeyVals, TimeOffset,
    TimeOffsetAmount, Value, WSSep,
};
use tomllib::objects::{array, inline_table, inline_table_keyvals_non_empty};

fn owned(s: &str) -> String {
    String::from(s)
}

#[test]
fn test_non_nested_array() {
    assert_eq!(
        array("[2010-10-10T10:10:10.33Z, 1950-03-30T21:04:14.123+05:00]"),
        Some((
            Array {
                values: Some(Box::new(ArrayValues {
                    val: Value::DateTime(DateTime::new_str(
                        "2010",
                        "10",
                        "10",
                        "10",
                        "10",
                        "10",
                        Some("33"),
                        TimeOffset::Z
                    )),
                    array_sep: Some(WSSep::new_str("", " ")),
                    comment_nl: None,
                    array_vals: Some(Box::new(ArrayValues {
                        val: Value::DateTime(DateTime::new_str(
                            "1950",
                            "03",
                            "30",
                            "21",
                            "04",
                            "14",
                            Some("123"),
                            TimeOffset::Time(TimeOffsetAmount::new_str("+", "05", "00"))
                        )),
                        array_sep: None,
                        comment_nl: None,
                        array_vals: None,
                    })),
                })),
                ws: WSSep::new_str("", ""),
            },
            owned("")
        ))
    );
}

fn int_elem(n: &str, sep: Option<WSSep>, next: Option<Box<ArrayValues>>) -> ArrayValues {
    ArrayValues { val: Value::Integer(String::from(n)), array_sep: sep, comment_nl: None, array_vals: next }
}

fn int_array(first: ArrayValues) -> Value {
    Value::Array(Box::new(Array { values: Some(Box::new(first)), ws: WSSep::new_str("", "") }))
}

#[test]
fn test_nested_array() {
    let inner1 = int_array(int_elem(
        "3",
        Some(WSSep::new_str("", "")),
        Some(Box::new(int_elem("4", None, None))),
    ));
    let inner2 = int_array(int_elem(
        "4",
        Some(WSSep::new_str("", "")),
        Some(Box::new(int_elem("5", None, None))),
    ));
    let inner3 = int_array(int_elem("6", None, None));
    let expected = Array {
        values: Some(Box::new(ArrayValues {
            val: inner1,
            array_sep: Some(WSSep::new_str("", " ")),
            comment_nl: None,
            array_vals: Some(Box::new(ArrayValues {
                val: inner2,
                array_sep: Some(WSSep::new_str("", " ")),
                comment_nl: None,
                array_vals: Some(Box::new(ArrayValues {
                    val: inner3,
                    array_sep: None,
                    comment_nl: None,
                    array_vals: None,
                })),
            })),
        })),
        ws: WSSep::new_str("", ""),
    };
    assert_eq!(array("[[3,4], [4,5], [6]]"), Some((expected, owned(""))));
}

#[test]
fn test_inline_table_keyvals_non_empty() {
    assert_eq!(
        inline_table_keyvals_non_empty("Key = 54 , \"Key2\" = '34.99'"),
        Some((
            TableKeyVals {
                key: owned("Key"),
                keyval_sep: WSSep::new_str(" ", " "),
                val: Value::Integer(owned("54")),
                table_sep: Some(WSSep::new_str(" ", " ")),
                keyvals: Some(Box::new(TableKeyVals {
                    key: owned("\"Key2\""),
                    keyval_sep: WSSep::new_str(" ", " "),
                    val: Value::String(owned("34.99"), StrType::Literal),
                    table_sep: None,
                    keyvals: None,
                })),
            },
            owned("")
        ))
    );
}

#[test]
fn test_inline_table() {
    assert_eq!(
        inline_table("{\tKey = 3.14E+5 , \"Key2\" = '''New\nLine'''\t}"),
        Some((
            InlineTable {
                keyvals: TableKeyVals {
                    key: owned("Key"),
                    keyval_sep: WSSep::new_str(" ", " "),
                    val: Value::Float(owned("3.14E+5")),
                    table_sep: Some(WSSep::new_str(" ", " ")),
                    keyvals: Some(Box::new(TableKeyVals {
                        key: owned("\"Key2\""),
                        keyval_sep: WSSep::new_str(" ", " "),
                        val: Value::String(owned("New\nLine"), StrType::MLLiteral(owned(""))),
                        table_sep: None,
                        keyvals: None,
                    })),
                },
                ws: WSSep::new_str("\t", "\t"),
            },
            owned("")
        ))
    );
}
