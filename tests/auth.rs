use anansi::auth::{
    BaseRelation, Feedback, User, UserNew, UserNewData, UsernameFeedback, Warning,
};
use anansi::records::{BigInt, RecordError, VarChar};

fn vc(s: &str) -> VarChar<150> {
    VarChar::<150>::from(s.to_string()).unwrap()
}

#[test]
fn guest_user() {
    let g = User::guest();
    assert_eq!(g.id, BigInt::new(0));
    assert_eq!(g.username.as_str(), "guest");
    assert_eq!(g.password.as_str(), "");
    assert!(!g.is_auth());
}

#[test]
fn logged_in_user_is_authenticated() {
    let u = User { id: BigInt::new(5), username: vc("ann"), password: vc("x") };
    assert!(u.is_auth());
}

#[test]
fn username_format() {
    assert_eq!(User::validate_username_format("  ann_1-b ").ok().unwrap().as_str(), "ann_1-b");
    let bad = User::validate_username_format("a b").err().unwrap();
    assert_eq!(bad.into_username().unwrap().as_str(), "a b");
    let empty = User::validate_username_format("   ").err().unwrap();
    assert_eq!(empty.into_username().unwrap().as_str(), "");
    let long = "x".repeat(151);
    let too_long = User::validate_username_format(&long).err().unwrap();
    assert!(too_long.into_username().is_none());
}

#[test]
fn username_feedback() {
    let f = UsernameFeedback::new();
    assert_eq!(f.warning(), "This username is invalid or already taken.");
    assert_eq!(
        f.suggestion(),
        "Valid usernames can only contain letters, numbers, dashes, and underscores."
    );
    assert!(f.into_username().is_none());
    assert_eq!(UsernameFeedback::from("bob".to_string()).into_username().unwrap().as_str(), "bob");
}

#[test]
fn password_feedback() {
    let f = Feedback::new(Warning::Medium);
    assert_eq!(*f.warning(), Warning::Medium);
    assert_eq!(f.suggestion(), "Consider using a password manager.");
    assert_eq!(Warning::Weak.to_text(), "Strength: weak.");
    assert_eq!(Warning::Medium.to_text(), "Strength: medium.");
}

#[test]
fn sign_up_passwords_must_agree() {
    let same = UserNewData { username: vc("a"), password: vc("pw"), confirm: vc("pw") };
    assert!(UserNew::clean(&same).is_ok());
    let other = UserNewData { username: vc("a"), password: vc("pw"), confirm: vc("pv") };
    assert_eq!(UserNew::clean(&other).err(), Some(RecordError::Invalid));
}

#[test]
fn relation_search_query() {
    assert_eq!(
        BaseRelation::search("auth_group", 1, "member"),
        "SELECT * FROM 'auth_grouptuple' WHERE object_key = 1 AND object_predicate = 'member';"
    );
    assert_eq!(
        BaseRelation::search("x", -2, "o'k"),
        "SELECT * FROM 'xtuple' WHERE object_key = -2 AND object_predicate = 'o''k';"
    );
}

#[test]
fn uppercase_first_letter() {
    assert_eq!(anansi::text::uppercase("view"), "View");
    assert_eq!(anansi::text::uppercase("éclair"), "Éclair");
    assert_eq!(anansi::text::uppercase("ß"), "SS");
}
