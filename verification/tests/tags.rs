use libqaul::tagcodec::{CodecError, Field, TagError, TagFields};
use libqaul::hexcode::HexError;
use libqaul::tags::{Tag, TagSet};

#[test]
fn subset_1() {
    let whole = TagSet::from(vec![Tag::empty("a"), Tag::empty("b")]);
    let sub = TagSet::from(vec![Tag::empty("a")]);
    assert!(whole.subset(&sub));
}

#[test]
fn subset_2() {
    let a = TagSet::from(vec![Tag::empty("a"), Tag::empty("b")]);
    let b = TagSet::from(vec![Tag::empty("b"), Tag::empty("c")]);
    assert!(!a.subset(&b));
}

#[test]
fn intersect_1() {
    let a = TagSet::from(vec![Tag::empty("a"), Tag::empty("b")]);
    let b = TagSet::from(vec![Tag::empty("b"), Tag::empty("c")]);
    assert!(a.intersect(&b));
}

#[test]
fn intersect_4() {
    let a = TagSet::from(vec![Tag::empty("a"), Tag::empty("b"), Tag::empty("c")]);
    let b = TagSet::from(vec![Tag::empty("d"), Tag::empty("e")]);
    assert!(!a.intersect(&b));
}

#[test]
fn not_1() {
    let a = TagSet::from(vec![Tag::empty("a"), Tag::empty("b"), Tag::empty("c")]);
    let b = TagSet::from(vec![Tag::empty("d"), Tag::empty("e")]);
    assert!(a.not(&b));
}

#[test]
fn serialize_tag_json() {
    let t = Tag {
        key: "blorp".into(),
        val: vec![172, 171],
    };

    let mut map = serde_json::Map::new();
    map.insert("key".to_string(), serde_json::Value::String(t.key.clone()));
    map.insert("val".to_string(), serde_json::Value::String(t.val_hex()));
    let json = serde_json::to_string(&serde_json::Value::Object(map)).unwrap();
    assert_eq!(json.as_str(), r#"{"key":"blorp","val":"ACAB"}"#);
}

#[test]
fn serialize_tag_bincode() {
    let t = Tag {
        key: "blorp".into(),
        val: vec![172, 171],
    };

    let bc = t.to_bytes();
    assert_eq!(
        bc.as_slice(),
        &[5, 0, 0, 0, 0, 0, 0, 0, 98, 108, 111, 114, 112, 2, 0, 0, 0, 0, 0, 0, 0, 172, 171]
    );
    let theirs = bincode::serialize(&(t.key.clone(), t.val.clone())).unwrap();
    assert_eq!(bc, theirs);
}

#[test]
fn deserialize_tag_json() {
    let mut map = serde_json::Map::new();
    map.insert("key".to_string(), serde_json::Value::String("blorp".to_string()));
    map.insert("val".to_string(), serde_json::Value::String("ACAB".to_string()));
    let json = serde_json::Value::Object(map);

    let entries: Vec<(String, String)> = json
        .as_object()
        .unwrap()
        .iter()
        .map(|(k, v)| (k.clone(), v.as_str().unwrap().to_string()))
        .collect();
    let t = Tag::from_fields(&entries).unwrap();

    assert_eq!(
        t,
        Tag {
            key: "blorp".into(),
            val: vec![172, 171],
        }
    );
}

#[test]
fn deserialize_tag_bincode() {
    let bin = [
        5, 0, 0, 0, 0, 0, 0, 0, 98, 108, 111, 114, 112, 2, 0, 0, 0, 0, 0, 0, 0, 172, 171,
    ];

    let (t, used) = Tag::from_bytes(&bin).unwrap();

    assert_eq!(
        t,
        Tag {
            key: "blorp".into(),
            val: vec![172, 171],
        }
    );
    assert_eq!(used, bin.len());
}

#[test]
fn sets_are_made_of_tags_and_lists_of_tags() {
    let list = vec![Tag::empty("b"), Tag::empty("a"), Tag::empty("b")];
    let by_ref = TagSet::from(&list);
    let by_value = TagSet::from(list.clone());
    assert_eq!(by_ref, by_value);
    assert_eq!(by_ref.len(), 2);
    assert_eq!(TagSet::from_vec(list), by_ref);
    let one = Tag::new("k", vec![1]);
    assert_eq!(TagSet::from(&one), TagSet::from(one.clone()));
    assert_eq!(TagSet::from(&one).to_vec(), vec![one]);
    assert_eq!(TagSet::from(Vec::<Tag>::new()), TagSet::empty());
}

#[test]
fn empty_tag_has_no_value() {
    let t = Tag::empty("k");
    assert_eq!(t.key, "k");
    assert!(t.val.is_empty());
    assert_eq!(t, Tag::new("k", vec![]));
}

#[test]
fn tags_are_ordered_by_key_then_value() {
    let a = Tag::new("a", vec![9]);
    let b = Tag::new("b", vec![0]);
    assert!(a.precedes(&b));
    assert!(!b.precedes(&a));
    let a1 = Tag::new("a", vec![1]);
    let a12 = Tag::new("a", vec![1, 2]);
    assert!(a1.precedes(&a12));
    assert!(a12.precedes(&a));
    assert!(!a.precedes(&a));
    assert!(Tag::empty("a").precedes(&Tag::empty("ab")));
    for (x, y) in [(&a, &b), (&a1, &a12), (&a12, &a), (&b, &a)] {
        assert_eq!(x.precedes(y), x < y);
    }
}

#[test]
fn set_holds_each_tag_once_in_order() {
    let mut s = TagSet::empty();
    assert_eq!(s.len(), 0);
    s.insert(Tag::empty("b"));
    s.insert(Tag::empty("a"));
    s.insert(Tag::empty("b"));
    s.insert(Tag::new("a", vec![1]));
    assert_eq!(s.len(), 3);
    let keys: Vec<(String, Vec<u8>)> = s.iter().map(|t| (t.key.clone(), t.val.clone())).collect();
    assert_eq!(
        keys,
        vec![
            ("a".to_string(), vec![]),
            ("a".to_string(), vec![1]),
            ("b".to_string(), vec![])
        ]
    );
    assert!(s.contains(&Tag::empty("a")));
    assert!(!s.contains(&Tag::empty("c")));
    s.remove(&Tag::empty("a"));
    assert!(!s.contains(&Tag::empty("a")));
    assert_eq!(s.len(), 2);
    s.remove(&Tag::empty("zz"));
    assert_eq!(s.len(), 2);
    assert_eq!(s.to_vec(), vec![Tag::new("a", vec![1]), Tag::empty("b")]);
}

#[test]
fn merge_is_commutative_and_idempotent() {
    let a = TagSet::from(vec![Tag::empty("a"), Tag::empty("b")]);
    let b = TagSet::from(vec![Tag::empty("b"), Tag::empty("c")]);
    let ab = a.clone().merge(b.clone());
    let ba = b.clone().merge(a.clone());
    assert!(ab.equality(&ba));
    assert_eq!(ab, ba);
    assert_eq!(ab.len(), 3);
    let aa = a.clone().merge(a.clone());
    assert!(aa.equality(&a));
    let with_empty = a.clone().merge(TagSet::empty());
    assert_eq!(with_empty, a);
}

#[test]
fn set_predicates_agree_with_sets() {
    let a = TagSet::from(vec![Tag::empty("a"), Tag::empty("b")]);
    let e = TagSet::default();
    // the empty set is part of every set, meets none, and is apart from all
    assert!(a.subset(&e));
    assert!(!e.subset(&a));
    assert!(!a.intersect(&e));
    assert!(a.not(&e));
    assert!(e.subset(&e));
    assert!(e.equality(&TagSet::empty()));
    assert!(!a.equality(&e));
    let b = TagSet::from(Tag::empty("b"));
    assert!(a.subset(&b) && a.intersect(&b) && !a.not(&b));
    assert!(!b.subset(&a));
    // a value tells tags apart
    let bv = TagSet::from(Tag::new("b", vec![0]));
    assert!(!a.intersect(&bv));
}

#[test]
fn binary_form_round_trips() {
    for t in [
        Tag::empty(""),
        Tag::empty("k"),
        Tag::new("käse", vec![0, 255, 7]),
        Tag::new("x", vec![1; 300]),
    ] {
        let bytes = t.to_bytes();
        let (back, used) = Tag::from_bytes(&bytes).unwrap();
        assert_eq!(back, t);
        assert_eq!(used, bytes.len());
        let mut more = bytes.clone();
        more.extend_from_slice(&[9, 9, 9]);
        let (again, used) = Tag::from_bytes(&more).unwrap();
        assert_eq!(again, t);
        assert_eq!(used, bytes.len());
    }
}

#[test]
fn binary_form_errors() {
    assert_eq!(Tag::from_bytes(&[]).unwrap_err(), CodecError::Truncated);
    assert_eq!(Tag::from_bytes(&[1, 0, 0, 0, 0, 0, 0, 0]).unwrap_err(), CodecError::Truncated);
    // key of one byte that is no UTF-8
    assert_eq!(
        Tag::from_bytes(&[1, 0, 0, 0, 0, 0, 0, 0, 0xff, 0, 0, 0, 0, 0, 0, 0, 0]).unwrap_err(),
        CodecError::BadUtf8
    );
    // value is missing
    assert_eq!(Tag::from_bytes(&[1, 0, 0, 0, 0, 0, 0, 0, 97]).unwrap_err(), CodecError::Truncated);
    // a length that is far too large
    assert_eq!(
        Tag::from_bytes(&[255, 255, 255, 255, 255, 255, 255, 255, 97]).unwrap_err(),
        CodecError::Truncated
    );
}

#[test]
fn readable_form_round_trips() {
    let t = Tag::new("colour", vec![0xde, 0xad, 0xbe, 0xef, 0x00, 0x0a]);
    assert_eq!(t.val_hex(), "DEADBEEF000A");
    let entries = vec![("val".to_string(), t.val_hex()), ("key".to_string(), t.key.clone())];
    assert_eq!(Tag::from_fields(&entries).unwrap(), t);
    // lower case is read too
    let entries = vec![("key".to_string(), "k".to_string()), ("val".to_string(), "acAB".to_string())];
    assert_eq!(Tag::from_fields(&entries).unwrap(), Tag::new("k", vec![172, 171]));
}

#[test]
fn readable_form_errors() {
    let e = |pairs: &[(&str, &str)]| {
        let v: Vec<(String, String)> = pairs.iter().map(|(a, b)| (a.to_string(), b.to_string())).collect();
        Tag::from_fields(&v).unwrap_err()
    };
    assert!(matches!(e(&[]), TagError::MissingField(Field::Key)));
    assert!(matches!(e(&[("key", "k")]), TagError::MissingField(Field::Val)));
    assert!(matches!(e(&[("val", "00")]), TagError::MissingField(Field::Key)));
    assert!(matches!(e(&[("key", "k"), ("key", "l")]), TagError::DuplicateField(Field::Key)));
    assert!(matches!(e(&[("val", "00"), ("val", "01")]), TagError::DuplicateField(Field::Val)));
    match e(&[("key", "k"), ("colour", "red")]) {
        TagError::UnknownField(name) => assert_eq!(name, "colour"),
        other => panic!("{:?}", other),
    }
    assert!(matches!(e(&[("val", "ABC")]), TagError::BadHex(HexError::OddLength)));
    assert!(matches!(
        e(&[("val", "ABXY")]),
        TagError::BadHex(HexError::InvalidHexCharacter { c: 'X', index: 2 })
    ));
    // the first error decides
    assert!(matches!(e(&[("nope", "x"), ("key", "k"), ("key", "k")]), TagError::UnknownField(_)));
}

#[test]
fn fields_are_collected_one_by_one() {
    let mut f = TagFields::new();
    assert!(matches!(f.expect("key"), Ok(Field::Key)));
    f.set_key("k".to_string());
    assert!(matches!(f.expect("key"), Err(TagError::DuplicateField(Field::Key))));
    assert!(matches!(f.expect("val"), Ok(Field::Val)));
    assert!(f.set_val_hex("zz").is_err());
    assert!(matches!(f.expect("val"), Ok(Field::Val)));
    f.set_val(vec![1, 2]);
    assert!(matches!(f.expect("val"), Err(TagError::DuplicateField(Field::Val))));
    assert_eq!(f.finish().unwrap(), Tag::new("k", vec![1, 2]));
}
