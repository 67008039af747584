use anansi::auth::User;
use anansi::records::{
    Cascade, ForeignKey,
    generate_id, BigInt, Boolean, DataType, Objects, RecordError, RecordField, Text, ToSql, VarChar,
};

#[test]
fn boolean_from_text() {
    assert!(Boolean::from("true").unwrap().is(true));
    assert!(Boolean::from("1").unwrap().is(true));
    assert!(Boolean::from("false").unwrap().is(false));
    assert!(Boolean::from("0").unwrap().is(false));
    assert_eq!(Boolean::from("yes").err(), Some(RecordError::Invalid));
    assert_eq!(Boolean::from("").err(), Some(RecordError::Invalid));
}

#[test]
fn boolean_sql_and_field() {
    assert_eq!(Boolean::new(true).to_sql(), "true");
    assert_eq!(Boolean::new(false).to_sql(), "false");
    assert_eq!(Boolean::field().to_syntax().0, "boolean NOT NULL");
}

#[test]
fn bigint_from_text() {
    assert_eq!(BigInt::from("42").unwrap().as_i64(), 42);
    assert_eq!(BigInt::from("-7").unwrap().as_i64(), -7);
    assert_eq!(BigInt::from("+3").unwrap().into(), 3);
    assert_eq!(
        BigInt::from("9223372036854775807").unwrap().as_i64(),
        i64::MAX
    );
    assert!(BigInt::from("9223372036854775808").is_err());
    assert!(BigInt::from("x").is_err());
    assert!(BigInt::from("").is_err());
    assert!(BigInt::from("-").is_err());
    assert!(BigInt::from(" 1").is_err());
}

#[test]
fn bigint_sql() {
    assert_eq!(BigInt::new(0).to_sql(), "0");
    assert_eq!(BigInt::new(1234).to_sql(), "1234");
    assert_eq!(BigInt::new(-56).to_sql(), "-56");
    assert_eq!(BigInt::new(i64::MIN).to_sql(), "-9223372036854775808");
    assert_eq!(BigInt::field().to_syntax().0, "bigint NOT NULL");
}

#[test]
fn generated_ids_are_in_range() {
    for _ in 0..100 {
        let id = generate_id().as_i64();
        assert!(id >= 0 && id < i64::MAX);
    }
}

#[test]
fn text_values() {
    assert_eq!(Text::new().as_str(), "");
    let t = Text::from("it's".to_string());
    assert_eq!(t.as_str(), "it's");
    assert_eq!(t.to_sql(), "'it''s'");
    assert_eq!(Text::field().to_syntax().0, "text NOT NULL");
    assert_eq!(Text::from_val("a".to_string()).unwrap().as_str(), "a");
}

#[test]
fn varchar_length_limit() {
    assert_eq!(VarChar::<3>::from("abc".to_string()).unwrap().as_str(), "abc");
    assert_eq!(VarChar::<3>::from("abcd".to_string()).err().map(|_| ()), Some(()));
    // The limit counts bytes: two two-byte characters do not fit in three.
    assert!(VarChar::<3>::from("éé".to_string()).is_err());
    assert!(VarChar::<3>::from_val("ab".to_string()).is_ok());
    assert_eq!(VarChar::<3>::new().as_str(), "");
}

#[test]
fn varchar_field_and_sql() {
    assert_eq!(VarChar::<150>::field().to_syntax().0, "varchar(150) NOT NULL");
    assert_eq!(VarChar::<7>::field().to_syntax().0, "varchar(7) NOT NULL");
    assert_eq!(VarChar::<10>::from("a'b".to_string()).unwrap().to_sql(), "'a''b'");
}

#[test]
fn record_field_syntax() {
    let f = RecordField::new("bigint".to_string()).primary_key().unique();
    assert_eq!(f.to_syntax().0, "bigint NOT NULL PRIMARY KEY UNIQUE");
    let g = RecordField::new("text".to_string()).null();
    assert_eq!(g.to_syntax().0, "text");
    assert!(g.to_syntax().1.is_empty());
}

#[test]
fn record_field_foreign_key() {
    let f = RecordField::new("bigint".to_string()).foreign_key("auth", "user", "id");
    let (s, c) = f.to_syntax();
    assert_eq!(s, "bigint NOT NULL");
    assert_eq!(
        c,
        vec![
            "FOREIGN KEY (\"user\")".to_string(),
            "REFERENCES \"auth_user\" (\"id\")".to_string(),
            "ON DELETE CASCADE".to_string(),
        ]
    );
}

#[test]
fn objects_push_pop_swap_remove() {
    let mut o: Objects<u32> = Objects::new();
    assert_eq!(o.len(), 0);
    assert_eq!(o.pop(), None);
    o.push(1);
    o.push(2);
    o.push(3);
    assert_eq!(o.len(), 3);
    assert_eq!(o.swap_remove(0), 1);
    assert_eq!(o.0, vec![3, 2]);
    assert_eq!(o.pop(), Some(2));
    assert_eq!(o.len(), 1);
}

#[test]
fn foreign_keys_and_primary_keys() {
    let mut u = User::guest();
    u.id = BigInt::new(7);
    let fk: ForeignKey<User, Cascade> = ForeignKey::new(&u);
    assert_eq!(fk.pk(), BigInt::new(7));
    assert!(fk.eq_record(&u));
    assert!(!fk.eq_record(&User::guest()));
    let other: ForeignKey<User, Cascade> = ForeignKey::from_data(BigInt::new(0)).unwrap();
    assert!(other.eq_record(&User::guest()));
    let mut o: Objects<User> = Objects::new();
    o.push(u);
    o.push(User::guest());
    assert_eq!(o.pks(), vec![BigInt::new(7), BigInt::new(0)]);
}
