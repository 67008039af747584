//! The typed columns that records are built from, and the description of a
//! column in a table definition.

use vstd::prelude::*;
use crate::text::{chars_of, push_str, string_of};
use rand::Rng;

verus! {

/// Why a value cannot stand in a column.
#[derive(Clone, Copy, Debug, PartialEq, Eq, Structural)]
pub enum RecordError {
    /// The value is not one the column accepts.
    Invalid,
}

#[verifier::external_type_specification]
#[verifier::external_body]
pub struct ExParseIntError(std::num::ParseIntError);

/// The decimal digit for `d < 10`.
pub open spec fn digit(d: nat) -> char {
    ((d + 48) as u32) as char
}

/// The decimal form of `n`, without leading zeros.
pub open spec fn decimal(n: nat) -> Seq<char>
    decreases n,
{
    if n < 10 {
        seq![digit(n)]
    } else {
        decimal(n / 10) + seq![digit(n % 10)]
    }
}

/// The decimal form of a signed integer.
pub open spec fn signed_decimal(n: int) -> Seq<char> {
    if n < 0 {
        seq!['-'] + decimal((-n) as nat)
    } else {
        decimal(n as nat)
    }
}

/// Whether every character of `t` is an ASCII digit.
pub open spec fn all_digits(t: Seq<char>) -> bool {
    forall|j: int| 0 <= j < t.len() ==> '0' <= #[trigger] t[j] <= '9'
}

/// The value of a string of ASCII digits.
pub open spec fn digits_value(t: Seq<char>) -> int
    decreases t.len(),
{
    if t.len() == 0 {
        0
    } else {
        digits_value(t.drop_last()) * 10 + (t.last() as int - '0' as int)
    }
}

/// The integer that `t` writes as an optional sign and at least one decimal
/// digit, or `None` where `t` is not of that form.
pub open spec fn decimal_value(t: Seq<char>) -> Option<int> {
    if t.len() > 0 && (t[0] == '+' || t[0] == '-') {
        let d = t.drop_first();
        if d.len() > 0 && all_digits(d) {
            Some(if t[0] == '-' { -digits_value(d) } else { digits_value(d) })
        } else {
            None
        }
    } else if t.len() > 0 && all_digits(t) {
        Some(digits_value(t))
    } else {
        None
    }
}

/// Relies on `str::parse::<i64>` (`i64::from_str`): an optional `+` or `-`
/// and decimal digits, nothing else, within the range of `i64`.
#[verifier::external_body]
fn parse_i64(s: &str) -> (r: Result<i64, std::num::ParseIntError>)
    ensures
        r is Ok <==> (decimal_value(s@) is Some && i64::MIN <= decimal_value(s@)->0 <= i64::MAX),
        r is Ok ==> r->Ok_0 == decimal_value(s@)->0,
{
    s.parse::<i64>()
}

/// Relies on `rand::thread_rng` and `Rng::gen_range`: a number drawn from
/// `[0, high)`, which must not be empty.
#[verifier::external_body]
fn random_below(high: i64) -> (r: i64)
    requires
        0 < high,
    ensures
        0 <= r < high,
{
    rand::thread_rng().gen_range(0..high)
}

/// Appends the decimal form of `n`.
pub fn push_decimal(out: &mut Vec<char>, n: u64)
    ensures
        final(out)@ == old(out)@ + decimal(n as nat),
    decreases n,
{
    if n >= 10 {
        push_decimal(out, n / 10);
    }
    let ghost o = out@;
    out.push(char_of_digit(n % 10));
    assert(out@ =~= o + seq![digit((n % 10) as nat)]);
    if n < 10 {
        assert(n % 10 == n);
    }
}

/// The character of a decimal digit.
fn char_of_digit(d: u64) -> (c: char)
    requires
        d < 10,
    ensures
        c == digit(d as nat),
{
    let c = if d == 0 {
        '0'
    } else if d == 1 {
        '1'
    } else if d == 2 {
        '2'
    } else if d == 3 {
        '3'
    } else if d == 4 {
        '4'
    } else if d == 5 {
        '5'
    } else if d == 6 {
        '6'
    } else if d == 7 {
        '7'
    } else if d == 8 {
        '8'
    } else {
        '9'
    };
    assert(c as u32 == d + 48);
    c
}

/// Appends the decimal form of a signed integer.
pub fn push_signed_decimal(out: &mut Vec<char>, n: i64)
    ensures
        final(out)@ == old(out)@ + signed_decimal(n as int),
{
    if n < 0 {
        let ghost o = out@;
        out.push('-');
        let m: u64 = (0i128 - n as i128) as u64;
        push_decimal(out, m);
        assert(out@ =~= o + (seq!['-'] + decimal((-n) as nat)));
    } else {
        push_decimal(out, n as u64);
    }
}

/// Text as an SQL string literal: in single quotes, each single quote doubled.
pub open spec fn sql_quoted(t: Seq<char>) -> Seq<char> {
    seq!['\''] + sql_doubled(t) + seq!['\'']
}

/// `t` with each single quote doubled.
pub open spec fn sql_doubled(t: Seq<char>) -> Seq<char>
    decreases t.len(),
{
    if t.len() == 0 {
        Seq::empty()
    } else {
        sql_doubled(t.drop_last()) + (if t.last() == '\'' {
            seq!['\'', '\'']
        } else {
            seq![t.last()]
        })
    }
}

/// Appends `t` as an SQL string literal.
pub fn push_sql_quoted(out: &mut Vec<char>, t: &str)
    ensures
        final(out)@ == old(out)@ + sql_quoted(t@),
{
    let v = chars_of(t);
    let ghost o = out@;
    out.push('\'');
    let mut i: usize = 0;
    while i < v.len()
        invariant
            i <= v.len(),
            v@ == t@,
            out@ == o + seq!['\''] + sql_doubled(v@.take(i as int)),
        decreases v.len() - i,
    {
        assert(v@.take(i + 1).drop_last() =~= v@.take(i as int));
        let ghost o2 = out@;
        if v[i] == '\'' {
            out.push('\'');
            out.push('\'');
            assert(out@ =~= o2 + seq!['\'', '\'']);
        } else {
            out.push(v[i]);
            assert(out@ =~= o2 + seq![v@[i as int]]);
        }
        i = i + 1;
        assert(out@ =~= o + seq!['\''] + sql_doubled(v@.take(i as int)));
    }
    assert(v@.take(v.len() as int) =~= t@);
    out.push('\'');
    assert(out@ =~= o + sql_quoted(t@));
}

/// A value's form in an SQL statement.
pub trait ToSql {
    spec fn sql(&self) -> Seq<char>;

    fn to_sql(&self) -> (r: String)
        ensures
            r@ == self.sql(),
    ;
}

/// A column type whose values are built from a plain value of type `T`.
pub trait DataType: Sized {
    type T;

    spec fn accepts(t: Self::T) -> bool;

    fn from_val(t: Self::T) -> (r: Result<Self, RecordError>)
        ensures
            r is Ok <==> Self::accepts(t),
    ;
}

/// What an `ON DELETE` clause does.
pub trait OnDelete {
    fn on_delete() -> &'static str;
}

/// Deleting the referenced record deletes the referring ones.
pub struct Cascade {}

impl OnDelete for Cascade {
    fn on_delete() -> &'static str {
        "CASCADE"
    }
}

/// A column's description in a table definition.
pub struct RecordField {
    pub ty: String,
    pub primary_key: bool,
    pub unique: bool,
    pub null: bool,
    pub constraints: Vec<String>,
}

/// The views of a sequence of strings.
pub open spec fn string_views(v: Seq<String>) -> Seq<Seq<char>> {
    v.map_values(|x: String| x@)
}

/// A column's definition: its type, then `NOT NULL` unless it may be null,
/// `PRIMARY KEY` and `UNIQUE` where they apply.
pub open spec fn column_syntax(ty: Seq<char>, primary_key: bool, unique: bool, null: bool) -> Seq<
    char,
> {
    ty + (if !null {
        " NOT NULL"@
    } else {
        Seq::empty()
    }) + (if primary_key {
        " PRIMARY KEY"@
    } else {
        Seq::empty()
    }) + (if unique {
        " UNIQUE"@
    } else {
        Seq::empty()
    })
}

/// The constraints that make a column a foreign key.
pub open spec fn foreign_key_constraints(app: Seq<char>, other: Seq<char>, pk: Seq<char>) -> Seq<
    Seq<char>,
> {
    seq![
        "FOREIGN KEY (\""@ + other + "\")"@,
        "REFERENCES \""@ + app + "_"@ + other + "\" (\""@ + pk + "\")"@,
        "ON DELETE CASCADE"@,
    ]
}

/// Copies a vector of strings.
fn clone_strings(v: &Vec<String>) -> (r: Vec<String>)
    ensures
        string_views(r@) == string_views(v@),
{
    let mut r: Vec<String> = Vec::new();
    let mut i: usize = 0;
    while i < v.len()
        invariant
            i <= v.len(),
            string_views(r@) == string_views(v@.take(i as int)),
        decreases v.len() - i,
    {
        let ghost r0 = r@;
        r.push(v[i].clone());
        assert(string_views(r@) =~= string_views(r0).push(v@[i as int]@));
        assert(v@.take(i + 1) =~= v@.take(i as int).push(v@[i as int]));
        assert(string_views(v@.take(i + 1)) =~= string_views(v@.take(i as int)).push(v@[i as int]@));
        i = i + 1;
    }
    assert(v@.take(v.len() as int) =~= v@);
    r
}

impl RecordField {
    /// A column of type `ty`: not null, no key, no constraints.
    pub fn new(ty: String) -> (r: RecordField)
        ensures
            r.ty == ty,
            !r.primary_key && !r.unique && !r.null,
            r.constraints@.len() == 0,
    {
        RecordField { ty, primary_key: false, unique: false, null: false, constraints: Vec::new() }
    }

    /// The same column as the primary key.
    pub fn primary_key(self) -> (r: RecordField)
        ensures
            r.primary_key,
            r.ty == self.ty && r.unique == self.unique && r.null == self.null,
            r.constraints@ == self.constraints@,
    {
        let mut r = self;
        r.primary_key = true;
        r
    }

    /// The same column with unique values.
    pub fn unique(self) -> (r: RecordField)
        ensures
            r.unique,
            r.ty == self.ty && r.primary_key == self.primary_key && r.null == self.null,
            r.constraints@ == self.constraints@,
    {
        let mut r = self;
        r.unique = true;
        r
    }

    /// The same column, allowed to be null.
    pub fn null(self) -> (r: RecordField)
        ensures
            r.null,
            r.ty == self.ty && r.primary_key == self.primary_key && r.unique == self.unique,
            r.constraints@ == self.constraints@,
    {
        let mut r = self;
        r.null = true;
        r
    }

    /// The same column as a foreign key to `other_name`'s `pk_name` in app
    /// `app_name`, deleted with the record it refers to.
    pub fn foreign_key(self, app_name: &str, other_name: &str, pk_name: &str) -> (r: RecordField)
        ensures
            r.ty == self.ty && r.primary_key == self.primary_key && r.unique == self.unique
                && r.null == self.null,
            string_views(r.constraints@) == string_views(self.constraints@)
                + foreign_key_constraints(app_name@, other_name@, pk_name@),
    {
        let mut r = self;
        let ghost c0 = string_views(r.constraints@);
        let mut a: Vec<char> = Vec::new();
        push_str(&mut a, "FOREIGN KEY (\"");
        push_str(&mut a, other_name);
        push_str(&mut a, "\")");
        r.constraints.push(string_of(&a));
        let mut b: Vec<char> = Vec::new();
        push_str(&mut b, "REFERENCES \"");
        push_str(&mut b, app_name);
        push_str(&mut b, "_");
        push_str(&mut b, other_name);
        push_str(&mut b, "\" (\"");
        push_str(&mut b, pk_name);
        push_str(&mut b, "\")");
        r.constraints.push(string_of(&b));
        let mut c: Vec<char> = Vec::new();
        push_str(&mut c, "ON DELETE CASCADE");
        r.constraints.push(string_of(&c));
        assert(string_views(r.constraints@) =~= c0 + foreign_key_constraints(
            app_name@,
            other_name@,
            pk_name@,
        ));
        r
    }

    /// The column's definition and its constraints.
    pub fn to_syntax(&self) -> (r: (String, Vec<String>))
        ensures
            r.0@ == column_syntax(self.ty@, self.primary_key, self.unique, self.null),
            string_views(r.1@) == string_views(self.constraints@),
    {
        let mut s: Vec<char> = Vec::new();
        push_str(&mut s, self.ty.as_str());
        if !self.null {
            push_str(&mut s, " NOT NULL");
        }
        if self.primary_key {
            push_str(&mut s, " PRIMARY KEY");
        }
        if self.unique {
            push_str(&mut s, " UNIQUE");
        }
        assert(s@ =~= column_syntax(self.ty@, self.primary_key, self.unique, self.null));
        (string_of(&s), clone_strings(&self.constraints))
    }
}

/// A column field from a type name given as literal text.
fn field_of(ty: &str) -> (r: RecordField)
    ensures
        r.ty@ == ty@,
        !r.primary_key && !r.unique && !r.null,
        r.constraints@.len() == 0,
{
    let mut v: Vec<char> = Vec::new();
    push_str(&mut v, ty);
    RecordField::new(string_of(&v))
}

/// A boolean column value.
#[derive(Clone, Debug)]
pub struct Boolean {
    b: bool,
}

impl Boolean {
    /// The value `b`.
    pub fn new(b: bool) -> (r: Boolean)
        ensures
            r.value() == b,
    {
        Boolean { b }
    }

    /// The value as a plain `bool`.
    pub closed spec fn value(&self) -> bool {
        self.b
    }

    /// Whether the value is `b`.
    pub fn is(&self, b: bool) -> (r: bool)
        ensures
            r == (self.value() == b),
    {
        self.b == b
    }

    /// Reads `"true"` or `"1"` as true and `"false"` or `"0"` as false; any
    /// other text is invalid.
    pub fn from(s: &str) -> (r: Result<Boolean, RecordError>)
        ensures
            r is Ok <==> (s@ == "true"@ || s@ == "1"@ || s@ == "false"@ || s@ == "0"@),
            r is Ok ==> r->Ok_0.value() == (s@ == "true"@ || s@ == "1"@),
            r is Err ==> r->Err_0 == RecordError::Invalid,
    {
        let v = chars_of(s);
        proof {
            reveal_strlit("false");
            reveal_strlit("0");
            reveal_strlit("true");
            reveal_strlit("1");
            assert("0"@ != "1"@) by {
                assert("0"@[0] != "1"@[0]);
            }
        }
        if crate::text::is_lit(&v, "false") || crate::text::is_lit(&v, "0") {
            assert(s@ != "true"@ && s@ != "1"@) by {
                assert("false"@.len() == 5 && "0"@.len() == 1 && "true"@.len() == 4 && "1"@.len() == 1);
            }
            Ok(Boolean { b: false })
        } else if crate::text::is_lit(&v, "true") || crate::text::is_lit(&v, "1") {
            Ok(Boolean { b: true })
        } else {
            Err(RecordError::Invalid)
        }
    }

    /// The column type.
    pub fn field() -> (r: RecordField)
        ensures
            r.ty@ == "boolean"@,
            !r.primary_key && !r.unique && !r.null,
            r.constraints@.len() == 0,
    {
        field_of("boolean")
    }
}

impl ToSql for Boolean {
    closed spec fn sql(&self) -> Seq<char> {
        if self.b {
            "true"@
        } else {
            "false"@
        }
    }

    fn to_sql(&self) -> (r: String) {
        let mut v: Vec<char> = Vec::new();
        if self.b {
            push_str(&mut v, "true");
        } else {
            push_str(&mut v, "false");
        }
        string_of(&v)
    }
}

impl DataType for Boolean {
    type T = bool;

    open spec fn accepts(t: bool) -> bool {
        true
    }

    fn from_val(t: bool) -> (r: Result<Boolean, RecordError>) {
        Ok(Boolean { b: t })
    }
}

/// A 64-bit integer column value.
#[derive(Clone, Copy, Debug, PartialEq, Eq, Structural)]
pub struct BigInt {
    n: i64,
}

impl BigInt {
    /// The value `n`.
    pub fn new(n: i64) -> (r: BigInt)
        ensures
            r.value() == n,
    {
        BigInt { n }
    }

    /// The value as a plain integer.
    pub closed spec fn value(&self) -> i64 {
        self.n
    }

    /// Reads a decimal integer with an optional sign.
    pub fn from(s: &str) -> (r: Result<BigInt, std::num::ParseIntError>)
        ensures
            r is Ok <==> (decimal_value(s@) is Some && i64::MIN <= decimal_value(s@)->0
                <= i64::MAX),
            r is Ok ==> r->Ok_0.value() == decimal_value(s@)->0,
    {
        match parse_i64(s) {
            Ok(n) => Ok(BigInt { n }),
            Err(e) => Err(e),
        }
    }

    /// The value.
    pub fn as_i64(&self) -> (r: i64)
        ensures
            r == self.value(),
    {
        self.n
    }

    /// The value, consuming the column value.
    pub fn into(self) -> (r: i64)
        ensures
            r == self.value(),
    {
        self.n
    }

    /// The column type.
    pub fn field() -> (r: RecordField)
        ensures
            r.ty@ == "bigint"@,
            !r.primary_key && !r.unique && !r.null,
            r.constraints@.len() == 0,
    {
        field_of("bigint")
    }
}

impl ToSql for BigInt {
    closed spec fn sql(&self) -> Seq<char> {
        signed_decimal(self.n as int)
    }

    fn to_sql(&self) -> (r: String) {
        let mut v: Vec<char> = Vec::new();
        push_signed_decimal(&mut v, self.n);
        string_of(&v)
    }
}

impl DataType for BigInt {
    type T = i64;

    open spec fn accepts(t: i64) -> bool {
        true
    }

    fn from_val(t: i64) -> (r: Result<BigInt, RecordError>) {
        Ok(BigInt { n: t })
    }
}

/// A fresh record identifier, drawn at random from `[0, i64::MAX)`.
pub fn generate_id() -> (r: BigInt)
    ensures
        0 <= r.value() < i64::MAX,
{
    BigInt::new(random_below(i64::MAX))
}

/// A text column value of any length.
#[derive(Clone, Debug)]
pub struct Text {
    s: String,
}

impl Text {
    /// The empty text.
    pub fn new() -> (r: Text)
        ensures
            r.view() == Seq::<char>::empty(),
    {
        Text { s: String::new() }
    }

    /// The text's characters.
    pub closed spec fn view(&self) -> Seq<char> {
        self.s@
    }

    /// The text `s`.
    pub fn from(s: String) -> (r: Text)
        ensures
            r.view() == s@,
    {
        Text { s }
    }

    /// The column type.
    pub fn field() -> (r: RecordField)
        ensures
            r.ty@ == "text"@,
            !r.primary_key && !r.unique && !r.null,
            r.constraints@.len() == 0,
    {
        field_of("text")
    }

    /// The text.
    pub fn as_str(&self) -> (r: &str)
        ensures
            r@ == self.view(),
    {
        self.s.as_str()
    }
}

impl ToSql for Text {
    closed spec fn sql(&self) -> Seq<char> {
        sql_quoted(self.s@)
    }

    fn to_sql(&self) -> (r: String) {
        let mut v: Vec<char> = Vec::new();
        push_sql_quoted(&mut v, self.s.as_str());
        string_of(&v)
    }
}

impl DataType for Text {
    type T = String;

    open spec fn accepts(t: String) -> bool {
        true
    }

    fn from_val(t: String) -> (r: Result<Text, RecordError>) {
        Ok(Text { s: t })
    }
}

/// The length of `t` in bytes, encoded as UTF-8, as `str::len` reports it.
pub open spec fn byte_len(t: Seq<char>) -> nat {
    (vstd::utf8::encode_utf8(t).len() as usize) as nat
}

/// A text column value of at most `N` bytes.
#[derive(Clone, Debug)]
pub struct VarChar<const N: u16> {
    s: String,
}

impl<const N: u16> VarChar<N> {
    /// The empty text.
    pub fn new() -> (r: VarChar<N>)
        ensures
            r.view() == Seq::<char>::empty(),
    {
        VarChar { s: String::new() }
    }

    /// The text's characters.
    pub closed spec fn view(&self) -> Seq<char> {
        self.s@
    }

    /// The text `s`, where it fits in `N` bytes.
    pub fn from(s: String) -> (r: Result<VarChar<N>, RecordError>)
        ensures
            r is Ok <==> byte_len(s@) <= N,
            r is Ok ==> r->Ok_0.view() == s@,
            r is Err ==> r->Err_0 == RecordError::Invalid,
    {
        if s.as_str().len() > N as usize {
            Err(RecordError::Invalid)
        } else {
            Ok(VarChar { s })
        }
    }

    /// The text.
    pub fn as_str(&self) -> (r: &str)
        ensures
            r@ == self.view(),
    {
        self.s.as_str()
    }

    /// Whether the text is `other`.
    pub fn is(&self, other: &String) -> (r: bool)
        ensures
            r == (self.view() == other@),
    {
        self.s == *other
    }

    /// The column type: `varchar(N)`.
    pub fn field() -> (r: RecordField)
        ensures
            r.ty@ == "varchar("@ + decimal(N as nat) + ")"@,
            !r.primary_key && !r.unique && !r.null,
            r.constraints@.len() == 0,
    {
        let mut v: Vec<char> = Vec::new();
        push_str(&mut v, "varchar(");
        push_decimal(&mut v, N as u64);
        push_str(&mut v, ")");
        RecordField::new(string_of(&v))
    }
}

impl<const N: u16> ToSql for VarChar<N> {
    closed spec fn sql(&self) -> Seq<char> {
        sql_quoted(self.s@)
    }

    fn to_sql(&self) -> (r: String) {
        let mut v: Vec<char> = Vec::new();
        push_sql_quoted(&mut v, self.s.as_str());
        string_of(&v)
    }
}

impl<const N: u16> DataType for VarChar<N> {
    type T = String;

    open spec fn accepts(t: String) -> bool {
        byte_len(t@) <= N
    }

    fn from_val(t: String) -> (r: Result<VarChar<N>, RecordError>) {
        VarChar::from(t)
    }
}

/// The records of one query, in order.
pub struct Objects<M>(pub Vec<M>);

impl<M> Objects<M> {
    /// The records, in order.
    pub open spec fn view(&self) -> Seq<M> {
        self.0@
    }

    /// No records.
    pub fn new() -> (r: Objects<M>)
        ensures
            r.view() == Seq::<M>::empty(),
    {
        Objects(Vec::new())
    }

    /// How many records there are.
    pub fn len(&self) -> (r: usize)
        ensures
            r == self.view().len(),
    {
        self.0.len()
    }

    /// Adds a record at the end.
    pub fn push(&mut self, value: M)
        ensures
            final(self).view() == old(self).view().push(value),
    {
        self.0.push(value);
    }

    /// Removes the last record and yields it, if there is one.
    pub fn pop(&mut self) -> (r: Option<M>)
        ensures
            old(self).view().len() == 0 ==> r is None && final(self).view() == old(self).view(),
            old(self).view().len() > 0 ==> r == Some(old(self).view().last())
                && final(self).view() == old(self).view().drop_last(),
    {
        self.0.pop()
    }

    /// Removes the record at `index` and yields it; the last record takes its place.
    pub fn swap_remove(&mut self, index: usize) -> (r: M)
        requires
            index < old(self).view().len(),
        ensures
            r == old(self).view()[index as int],
            final(self).view() == old(self).view().update(index as int, old(self).view().last()).drop_last(),
    {
        self.0.swap_remove(index)
    }
}

} // verus!

verus! {

/// A stored record, identified by its primary key.
pub trait Record: Sized {
    type Pk: Copy;

    /// The record's primary key.
    spec fn key(&self) -> Self::Pk;

    fn pk(&self) -> (r: Self::Pk)
        ensures
            r == self.key(),
    ;
}

impl<M: Record> Objects<M> {
    /// The primary keys of the records, in order.
    pub fn pks(&self) -> (r: Vec<M::Pk>)
        ensures
            r@.len() == self.view().len(),
            forall|i: int| 0 <= i < r@.len() ==> r@[i] == #[trigger] self.view()[i].key(),
    {
        let mut v: Vec<M::Pk> = Vec::new();
        let mut i: usize = 0;
        while i < self.0.len()
            invariant
                i <= self.0.len(),
                v@.len() == i,
                forall|j: int| 0 <= j < i ==> v@[j] == #[trigger] self.0@[j].key(),
            decreases self.0.len() - i,
        {
            v.push(self.0[i].pk());
            i = i + 1;
        }
        v
    }
}

/// A reference from one record to another, by the other's primary key.
pub struct ForeignKey<M: Record, O: OnDelete> {
    pk: M::Pk,
    o: core::marker::PhantomData<O>,
}

impl<M: Record, O: OnDelete> ForeignKey<M, O> {
    /// The key referred to.
    pub closed spec fn key(&self) -> M::Pk {
        self.pk
    }

    /// A reference to `m`.
    pub fn new(m: &M) -> (r: ForeignKey<M, O>)
        ensures
            r.key() == m.key(),
    {
        ForeignKey { pk: m.pk(), o: core::marker::PhantomData }
    }

    /// A reference to the record with key `t`.
    pub fn from_data(t: M::Pk) -> (r: Result<ForeignKey<M, O>, RecordError>)
        ensures
            r is Ok && r->Ok_0.key() == t,
    {
        Ok(ForeignKey { pk: t, o: core::marker::PhantomData })
    }

    /// The key referred to.
    pub fn pk(&self) -> (r: M::Pk)
        ensures
            r == self.key(),
    {
        self.pk
    }
}

impl<M: Record<Pk = BigInt>, O: OnDelete> ForeignKey<M, O> {
    /// Whether this refers to `m`.
    pub fn eq_record(&self, m: &M) -> (r: bool)
        ensures
            r == (self.key() == m.key()),
    {
        self.pk.as_i64() == m.pk().as_i64()
    }
}

/// A many-to-many relation with records of type `M`.
pub struct ManyToMany<M: Record> {
    m: core::marker::PhantomData<M>,
}

impl<M: Record> ManyToMany<M> {
    /// The relation.
    pub fn new() -> ManyToMany<M> {
        ManyToMany { m: core::marker::PhantomData }
    }
}

} // verus!
