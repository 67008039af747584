//! Users, groups and the forms and feedback around them.

use vstd::prelude::*;
use crate::records::{
    byte_len, push_signed_decimal, push_sql_quoted, signed_decimal, sql_quoted, BigInt, RecordError,
    Text, VarChar,
};
use crate::text::{chars_of, push_str, string_of};
use crate::template::trim_chars;
use crate::inherit::trim;

verus! {

/// A user account.
pub struct User {
    pub id: BigInt,
    pub username: VarChar<150>,
    pub password: VarChar<150>,
}

/// A group of users.
pub struct Group {
    pub id: BigInt,
    pub groupname: VarChar<150>,
}

/// A saved filter of the administration site.
pub struct Filter {
    pub id: BigInt,
    pub table_name: Text,
    pub filter_name: Text,
    pub filter: Text,
    pub raw_query: Text,
}

/// How strong a password is judged.
#[derive(Clone, Copy, Debug, PartialEq, Eq, Structural)]
pub enum Warning {
    Weak,
    Medium,
}

/// The message that names a strength.
pub open spec fn warning_text(w: Warning) -> Seq<char> {
    match w {
        Warning::Weak => "Strength: weak."@,
        Warning::Medium => "Strength: medium."@,
    }
}

impl Warning {
    /// The message shown for this strength.
    pub fn to_text(&self) -> (r: String)
        ensures
            r@ == warning_text(*self),
    {
        let mut v: Vec<char> = Vec::new();
        match self {
            Warning::Weak => push_str(&mut v, "Strength: weak."),
            Warning::Medium => push_str(&mut v, "Strength: medium."),
        }
        string_of(&v)
    }
}

/// Feedback on a password that is not strong.
pub struct Feedback {
    warning: Warning,
    suggestion: &'static str,
}

impl Feedback {
    /// Feedback with warning `warning` and the standard suggestion.
    pub fn new(warning: Warning) -> (r: Feedback)
        ensures
            r.warning_of() == warning,
            r.suggestion_of() == "Consider using a password manager."@,
    {
        Feedback { warning, suggestion: "Consider using a password manager." }
    }

    /// The warning.
    pub closed spec fn warning_of(&self) -> Warning {
        self.warning
    }

    /// The suggestion.
    pub closed spec fn suggestion_of(&self) -> Seq<char> {
        self.suggestion@
    }

    /// The warning.
    pub fn warning(&self) -> (r: &Warning)
        ensures
            *r == self.warning_of(),
    {
        &self.warning
    }

    /// The suggestion.
    pub fn suggestion(&self) -> (r: &'static str)
        ensures
            r@ == self.suggestion_of(),
    {
        self.suggestion
    }
}

/// Feedback on a username that cannot be taken, with the name as a column
/// value where it fits one.
pub struct UsernameFeedback {
    username: Option<VarChar<150>>,
}

impl UsernameFeedback {
    /// Feedback that carries no name.
    pub fn new() -> (r: UsernameFeedback)
        ensures
            r.name() is None,
    {
        UsernameFeedback { username: None }
    }

    /// The name carried, if any.
    pub closed spec fn name(&self) -> Option<Seq<char>> {
        match self.username {
            Some(v) => Some(v.view()),
            None => None,
        }
    }

    /// Feedback on name `s`, which it carries where `s` fits a column of
    /// 150 bytes.
    pub fn from(s: String) -> (r: UsernameFeedback)
        ensures
            r.name() == (if byte_len(s@) <= 150 {
                Some(s@)
            } else {
                None
            }),
    {
        let username = match VarChar::<150>::from(s) {
            Ok(v) => Some(v),
            Err(_) => None,
        };
        UsernameFeedback { username }
    }

    /// The warning shown.
    pub fn warning(&self) -> (r: &'static str)
        ensures
            r@ == "This username is invalid or already taken."@,
    {
        "This username is invalid or already taken."
    }

    /// The suggestion shown.
    pub fn suggestion(&self) -> (r: &'static str)
        ensures
            r@ == "Valid usernames can only contain letters, numbers, dashes, and underscores."@,
    {
        "Valid usernames can only contain letters, numbers, dashes, and underscores."
    }

    /// The name carried, if any.
    pub fn into_username(self) -> (r: Option<VarChar<150>>)
        ensures
            match r {
                Some(v) => self.name() == Some(v.view()),
                None => self.name() is None,
            },
    {
        self.username
    }
}

/// Characters a username may hold.
pub open spec fn username_char(c: char) -> bool {
    ('a' <= c <= 'z') || ('A' <= c <= 'Z') || ('0' <= c <= '9') || c == '_' || c == '-'
}

/// Whether `t` may be a username: not empty, and only letters, digits,
/// dashes and underscores.
pub open spec fn valid_username(t: Seq<char>) -> bool {
    t.len() > 0 && forall|j: int| 0 <= j < t.len() ==> username_char(#[trigger] t[j])
}

impl User {
    /// The visitor who is not logged in: id 0, named `guest`, with no password.
    pub fn guest() -> (r: User)
        ensures
            r.id.value() == 0,
            r.username.view() == "guest"@,
            r.password.view() == Seq::<char>::empty(),
    {
        let mut v: Vec<char> = Vec::new();
        push_str(&mut v, "guest");
        proof {
            reveal_strlit("guest");
            assert(byte_len("guest"@) <= 150) by {
                assert(vstd::utf8::is_ascii_chars("guest"@));
                vstd::utf8::is_ascii_chars_encode_utf8("guest"@);
            }
        }
        let username = match VarChar::<150>::from(string_of(&v)) {
            Ok(u) => u,
            Err(_) => VarChar::new(),
        };
        User { id: BigInt::new(0), username, password: VarChar::new() }
    }

    /// Whether this user has logged in: every user but the guest has a
    /// non-zero id.
    pub fn is_auth(&self) -> (r: bool)
        ensures
            r == (self.id.value() != 0),
    {
        self.id.as_i64() != 0
    }

    /// Checks the form of a proposed username: surrounding whitespace is
    /// dropped, and what remains must be a valid username of at most 150
    /// bytes. Whether the name is taken is for the caller to ask.
    pub fn validate_username_format(username: &str) -> (r: Result<VarChar<150>, UsernameFeedback>)
        ensures
            r is Ok <==> (valid_username(trim(username@)) && byte_len(trim(username@)) <= 150),
            r is Ok ==> r->Ok_0.view() == trim(username@),
            r is Err ==> r->Err_0.name() == (if byte_len(trim(username@)) <= 150 {
                Some(trim(username@))
            } else {
                None
            }),
    {
        let t = trim_chars(&chars_of(username));
        let mut ok = t.len() > 0;
        let mut i: usize = 0;
        while i < t.len()
            invariant
                i <= t.len(),
                ok == (t.len() > 0 && forall|j: int| 0 <= j < i ==> username_char(t@[j])),
            decreases t.len() - i,
        {
            let c = t[i];
            let good = ('a' <= c && c <= 'z') || ('A' <= c && c <= 'Z') || ('0' <= c && c <= '9')
                || c == '_' || c == '-';
            ok = ok && good;
            i = i + 1;
        }
        let name = string_of(&t);
        if !ok {
            return Err(UsernameFeedback::from(name));
        }
        let name2 = string_of(&t);
        match VarChar::<150>::from(name) {
            Ok(v) => Ok(v),
            Err(_) => Err(UsernameFeedback::from(name2)),
        }
    }
}

/// The form for logging in.
pub struct UserLogin {
    pub username: VarChar<150>,
    pub password: VarChar<150>,
}

/// The form for signing up.
pub struct UserNew {
    pub username: VarChar<150>,
    pub password: VarChar<150>,
    pub confirm: VarChar<150>,
}

/// The values submitted with the sign-up form.
pub struct UserNewData {
    pub username: VarChar<150>,
    pub password: VarChar<150>,
    pub confirm: VarChar<150>,
}

impl UserNew {
    /// The password and its confirmation must agree.
    pub fn clean(data: &UserNewData) -> (r: Result<(), RecordError>)
        ensures
            r is Ok <==> data.password.view() == data.confirm.view(),
            r is Err ==> r->Err_0 == RecordError::Invalid,
    {
        let confirm = string_of(&chars_of(data.confirm.as_str()));
        if data.password.is(&confirm) {
            Ok(())
        } else {
            Err(RecordError::Invalid)
        }
    }
}

/// The form for editing a user.
pub struct UserForm {
    pub username: VarChar<150>,
}

/// The form for adding a group.
pub struct GroupForm {
    pub groupname: VarChar<150>,
}

/// The form for saving a filter.
pub struct FilterForm {
    pub filter_name: Text,
    pub filter: Text,
}

/// The search box of the administration site.
pub struct AdminSearch {
    pub q: VarChar<150>,
}

/// A relation tuple's subject: a record, or the holders of a predicate on it.
pub struct BaseRelation {
    pub subject_namespace: String,
    pub subject_key: i64,
    pub subject_predicate: Option<String>,
}

/// The query for the relation tuples about one object.
pub open spec fn search_query(namespace: Seq<char>, key: i64, predicate: Seq<char>) -> Seq<char> {
    "SELECT * FROM "@ + sql_quoted(namespace + "tuple"@) + " WHERE object_key = "@
        + signed_decimal(key as int) + " AND object_predicate = "@ + sql_quoted(predicate) + ";"@
}

impl BaseRelation {
    /// The query for the tuples of `object_namespace` about the object with
    /// key `object_key` and predicate `object_predicate`.
    pub fn search(object_namespace: &str, object_key: i64, object_predicate: &str) -> (r: String)
        ensures
            r@ == search_query(object_namespace@, object_key, object_predicate@),
    {
        let mut table: Vec<char> = Vec::new();
        push_str(&mut table, object_namespace);
        push_str(&mut table, "tuple");
        let table = string_of(&table);
        let mut q: Vec<char> = Vec::new();
        push_str(&mut q, "SELECT * FROM ");
        push_sql_quoted(&mut q, table.as_str());
        push_str(&mut q, " WHERE object_key = ");
        push_signed_decimal(&mut q, object_key);
        push_str(&mut q, " AND object_predicate = ");
        push_sql_quoted(&mut q, object_predicate);
        push_str(&mut q, ";");
        string_of(&q)
    }
}

} // verus!

verus! {

impl crate::records::Record for User {
    type Pk = BigInt;

    open spec fn key(&self) -> BigInt {
        self.id
    }

    fn pk(&self) -> (r: BigInt) {
        self.id
    }
}

impl crate::records::Record for Group {
    type Pk = BigInt;

    open spec fn key(&self) -> BigInt {
        self.id
    }

    fn pk(&self) -> (r: BigInt) {
        self.id
    }
}

} // verus!
