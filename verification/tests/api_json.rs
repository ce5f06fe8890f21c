use eidos_service::api_json::StringifyLargeIntegers;
use serde::Serialize;
use serde_json::ser::Formatter;
use std::collections::BTreeMap;
use std::io::{self, Write};

/// The policy, as a formatter of the serializer.
#[derive(Default)]
struct Policy(StringifyLargeIntegers);

impl Formatter for Policy {
    fn begin_string<W: ?Sized + Write>(&mut self, writer: &mut W) -> io::Result<()> {
        let mut out = String::new();
        self.0.begin_string(&mut out);
        writer.write_all(out.as_bytes())
    }

    fn end_string<W: ?Sized + Write>(&mut self, writer: &mut W) -> io::Result<()> {
        let mut out = String::new();
        self.0.end_string(&mut out);
        writer.write_all(out.as_bytes())
    }

    fn write_i64<W: ?Sized + Write>(&mut self, writer: &mut W, value: i64) -> io::Result<()> {
        let mut out = String::new();
        self.0.write_i64(&mut out, value);
        writer.write_all(out.as_bytes())
    }

    fn write_u64<W: ?Sized + Write>(&mut self, writer: &mut W, value: u64) -> io::Result<()> {
        let mut out = String::new();
        self.0.write_u64(&mut out, value);
        writer.write_all(out.as_bytes())
    }
}

fn to_vec<T: Serialize>(value: &T) -> Vec<u8> {
    let mut bytes = Vec::new();
    let mut serializer = serde_json::Serializer::with_formatter(&mut bytes, Policy::default());
    value.serialize(&mut serializer).unwrap();
    bytes
}

#[test]
fn numeric_map_keys_are_quoted_once_and_values_remain_exact() {
    let signed = to_vec(&BTreeMap::from([(i64::MIN, u64::MAX)]));
    let unsigned = to_vec(&BTreeMap::from([(u64::MAX, i64::MIN)]));
    let strings = to_vec(&BTreeMap::from([("quoted\"key".to_string(), u64::MAX)]));
    let trailing = to_vec(&9_007_199_254_740_993i64);
    let parsed = |bytes: &Vec<u8>| -> serde_json::Value { serde_json::from_slice(bytes).unwrap() };
    assert_eq!(
        parsed(&signed)[i64::MIN.to_string()],
        u64::MAX.to_string()
    );
    assert_eq!(
        parsed(&unsigned)[u64::MAX.to_string()],
        i64::MIN.to_string()
    );
    assert_eq!(parsed(&strings)["quoted\"key"], u64::MAX.to_string());
    assert_eq!(parsed(&trailing), "9007199254740993");
}

#[test]
fn stringifies_only_large_rust_integer_types() {
    assert_eq!(to_vec(&i64::MIN), b"\"-9223372036854775808\"");
    assert_eq!(to_vec(&u64::MAX), b"\"18446744073709551615\"");
    assert_eq!(to_vec(&7u32), b"7");
    assert_eq!(to_vec(&1.5f64), b"1.5");
    let nested: serde_json::Value = serde_json::from_str("{\"value\":9007199254740993}").unwrap();
    assert_eq!(to_vec(&nested), b"{\"value\":\"9007199254740993\"}");
}
