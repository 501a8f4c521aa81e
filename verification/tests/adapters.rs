use flatbuf::adapters::{set_from_u64_buffer, vector_from_u64_buffer, FBIter};
use flatbuf::containers::{OrdMap, OrdSet, Ref, Vector};
use flatbuf::convert::FromFlatBuffer;

#[test]
fn sequence_round_trip_scalars() {
    let mut v: Vector<u64> = Vector::new();
    v.push(5);
    v.push(3);
    v.push(3);
    v.push(9);
    let buf = v.to_flatbuf_buffer();
    let back = vector_from_u64_buffer(&buf).unwrap();
    assert_eq!(back.len(), 4);
    assert_eq!(*back.get(0), 5);
    assert_eq!(*back.get(1), 3);
    assert_eq!(*back.get(2), 3);
    assert_eq!(*back.get(3), 9);
}

#[test]
fn empty_sequence_round_trip() {
    let v: Vector<u64> = Vector::new();
    let buf = v.to_flatbuf_buffer();
    let back = vector_from_u64_buffer(&buf).unwrap();
    assert_eq!(back.len(), 0);
}

#[test]
fn set_wire_order_is_sorted() {
    let mut s: OrdSet<u64> = OrdSet::new();
    s.insert(3);
    s.insert(1);
    s.insert(2);
    let buf = s.to_flatbuf_buffer();
    // The wire row of a set is its sorted form, whatever the build order.
    let row = vector_from_u64_buffer(&buf).unwrap();
    assert_eq!(row.len(), 3);
    assert_eq!(*row.get(0), 1);
    assert_eq!(*row.get(1), 2);
    assert_eq!(*row.get(2), 3);
    let back = set_from_u64_buffer(&buf).unwrap();
    assert_eq!(back.len(), 3);
    assert_eq!(*back.get(0), 1);
    assert_eq!(*back.get(1), 2);
    assert_eq!(*back.get(2), 3);
}

#[test]
fn set_collapses_duplicates() {
    let mut s: OrdSet<u64> = OrdSet::new();
    s.insert(7);
    s.insert(7);
    s.insert(1);
    let buf = s.to_flatbuf_buffer();
    let back = set_from_u64_buffer(&buf).unwrap();
    assert_eq!(back.len(), 2);
    assert_eq!(*back.get(0), 1);
    assert_eq!(*back.get(1), 7);
}

#[test]
fn string_set_round_trip() {
    let mut s: OrdSet<String> = OrdSet::new();
    s.insert("pear".to_string());
    s.insert("apple".to_string());
    s.insert("pear".to_string());
    let buf = s.to_flatbuf_buffer();
    let back = OrdSet::<String>::from_flatbuf(&buf).unwrap();
    assert_eq!(back.len(), 2);
    assert_eq!(*back.get(0), "apple".to_string());
    assert_eq!(*back.get(1), "pear".to_string());
}

#[test]
fn map_round_trip_key_order() {
    let mut m: OrdMap<String, String> = OrdMap::new();
    m.insert("b".to_string(), "2".to_string());
    m.insert("a".to_string(), "1".to_string());
    let buf = m.to_flatbuf_buffer();
    // The wire form is a pair vector in key order.
    let rows = Vector::<String>::from_flatbuf(&buf).unwrap();
    assert_eq!(rows.len(), 2);
    assert_eq!(*rows.get(0), "a=1".to_string());
    assert_eq!(*rows.get(1), "b=2".to_string());
    // Reading it back reproduces the same associations.
    let back = OrdMap::<String, String>::from_flatbuf(&buf).unwrap();
    assert_eq!(back.len(), 2);
    assert_eq!(back.get(0).key, "a".to_string());
    assert_eq!(back.get(0).val, "1".to_string());
    assert_eq!(back.get(1).key, "b".to_string());
    assert_eq!(back.get(1).val, "2".to_string());
}

#[test]
fn map_duplicate_key_last_wins() {
    let mut m: OrdMap<String, String> = OrdMap::new();
    m.insert("a".to_string(), "1".to_string());
    m.insert("a".to_string(), "9".to_string());
    let buf = m.to_flatbuf_buffer();
    let rows = Vector::<String>::from_flatbuf(&buf).unwrap();
    assert_eq!(rows.len(), 1);
    assert_eq!(*rows.get(0), "a=9".to_string());
}

#[test]
fn malformed_element_fails_whole_read() {
    // A well-formed wire vector of strings, one of which is no pair.
    let mut v: Vector<String> = Vector::new();
    v.push("a=1".to_string());
    v.push("nosep".to_string());
    v.push("b=2".to_string());
    let buf = v.to_flatbuf_buffer();
    let r = OrdMap::<String, String>::from_flatbuf(&buf);
    let e = match r {
        Err(e) => e,
        Ok(_) => panic!("expected an error"),
    };
    assert_eq!(e, "malformed wire pair".to_string());
    // The same buffer still reads fine as plain strings.
    let rows = Vector::<String>::from_flatbuf(&buf).unwrap();
    assert_eq!(rows.len(), 3);
    assert_eq!(*rows.get(1), "nosep".to_string());
}

#[test]
fn invalid_buffer_is_rejected() {
    let junk: Vec<u8> = vec![1, 2, 3];
    let r = Vector::<String>::from_flatbuf(&junk);
    let e = match r {
        Err(e) => e,
        Ok(_) => panic!("expected an error"),
    };
    assert_eq!(e, "invalid wire vector".to_string());
    let r2 = vector_from_u64_buffer(&junk);
    assert!(r2.is_err());
}

#[test]
fn reference_is_transparent_on_the_wire() {
    // A shared reference writes identically to its bare inner value.
    let mut plain: Vector<u64> = Vector::new();
    plain.push(42);
    let mut wrapped: Vector<Ref<u64>> = Vector::new();
    wrapped.push(Ref::from(42));
    assert_eq!(plain.to_flatbuf_buffer(), wrapped.to_flatbuf_buffer());
    // Reading wire value 42 through the reference adapter yields a
    // reference whose dereferenced value is 42.
    let r = Ref::<u64>::from_flatbuf(42u64).unwrap();
    assert_eq!(*r.get(), 42);
}

#[test]
fn reference_clone_shares_the_value() {
    let r = Ref::from(11u64);
    let r2 = r.clone();
    assert_eq!(*r.get(), 11);
    assert_eq!(*r2.get(), 11);
}

#[test]
fn cursor_walks_forward_then_ends() {
    let mut v: Vector<String> = Vector::new();
    v.push("x".to_string());
    v.push("y".to_string());
    let buf = v.to_flatbuf_buffer();
    let mut it = FBIter::from_vector(&buf).unwrap();
    assert_eq!(it.next(&buf), Some("x".to_string()));
    assert_eq!(it.next(&buf), Some("y".to_string()));
    assert_eq!(it.next(&buf), None);
    assert_eq!(it.next(&buf), None);
    assert!(FBIter::from_vector(&vec![9u8]).is_none());
}

#[test]
fn string_sequence_keeps_order_and_duplicates() {
    let mut v: Vector<String> = Vector::new();
    v.push("b".to_string());
    v.push("a".to_string());
    v.push("b".to_string());
    let buf = v.to_flatbuf_buffer();
    let back = Vector::<String>::from_flatbuf(&buf).unwrap();
    assert_eq!(back.len(), 3);
    assert_eq!(*back.get(0), "b".to_string());
    assert_eq!(*back.get(1), "a".to_string());
    assert_eq!(*back.get(2), "b".to_string());
}

#[test]
fn map_key_may_contain_separator() {
    // The key is escaped on the wire, so it comes back exactly.
    let mut m: OrdMap<String, String> = OrdMap::new();
    m.insert("a=b".to_string(), "c".to_string());
    let buf = m.to_flatbuf_buffer();
    let rows = Vector::<String>::from_flatbuf(&buf).unwrap();
    assert_eq!(rows.len(), 1);
    assert_eq!(*rows.get(0), "a\\=b=c".to_string());
    let back = OrdMap::<String, String>::from_flatbuf(&buf).unwrap();
    assert_eq!(back.len(), 1);
    assert_eq!(back.get(0).key, "a=b".to_string());
    assert_eq!(back.get(0).val, "c".to_string());
}

#[test]
fn map_key_may_contain_escape_character() {
    let mut m: OrdMap<String, String> = OrdMap::new();
    m.insert("a\\b".to_string(), "c=d".to_string());
    let buf = m.to_flatbuf_buffer();
    let back = OrdMap::<String, String>::from_flatbuf(&buf).unwrap();
    assert_eq!(back.len(), 1);
    assert_eq!(back.get(0).key, "a\\b".to_string());
    assert_eq!(back.get(0).val, "c=d".to_string());
}

#[test]
fn dangling_escape_fails_the_map_read() {
    let mut v: Vector<String> = Vector::new();
    v.push("tail\\".to_string());
    let buf = v.to_flatbuf_buffer();
    let r = OrdMap::<String, String>::from_flatbuf(&buf);
    let e = match r {
        Err(e) => e,
        Ok(_) => panic!("expected an error"),
    };
    assert_eq!(e, "malformed wire pair".to_string());
}

#[test]
fn map_value_may_contain_separator() {
    let mut m: OrdMap<String, String> = OrdMap::new();
    m.insert("k".to_string(), "v=w".to_string());
    let buf = m.to_flatbuf_buffer();
    let back = OrdMap::<String, String>::from_flatbuf(&buf).unwrap();
    assert_eq!(back.len(), 1);
    assert_eq!(back.get(0).key, "k".to_string());
    assert_eq!(back.get(0).val, "v=w".to_string());
}

#[test]
fn largest_scalar_survives_the_trip() {
    let mut v: Vector<u64> = Vector::new();
    v.push(u64::MAX);
    v.push(0);
    let buf = v.to_flatbuf_buffer();
    let back = vector_from_u64_buffer(&buf).unwrap();
    assert_eq!(back.len(), 2);
    assert_eq!(*back.get(0), u64::MAX);
    assert_eq!(*back.get(1), 0);
}
