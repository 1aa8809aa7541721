//! Parameter types: how a value given on the command line is converted and
//! checked, and the values they produce.

use vstd::prelude::*;
use crate::error::{IntoText, opt_view};
use crate::text::{
    trim, trim_seq, parse_i64, parse_i64_seq, to_lower, lower_of, str_eq, starts_with,
    seq_starts_with, i64_to_string, int_to_dec, cat2, cat3, cat4, cat5, join, join_seq,
    split_whitespace, words, str_of, push_str, dec_digits, usize_to_string, float_literal,
    is_float_literal,
};

verus! {

// =============================================================================
// Outside types that values can hold
// =============================================================================

#[verifier::external_type_specification]
#[verifier::external_body]
pub struct ExUuid(uuid::Uuid);

#[verifier::external_type_specification]
#[verifier::external_body]
pub struct ExNaiveDateTime(chrono::NaiveDateTime);

#[verifier::external_type_specification]
#[verifier::external_body]
pub struct ExNaiveDate(chrono::NaiveDate);

/// `Uuid` is `Copy`: its clone is the same value.
pub assume_specification[<uuid::Uuid as core::clone::Clone>::clone](u: &uuid::Uuid) -> (r: uuid::Uuid)
    ensures
        r == *u,
;

/// `NaiveDateTime` is `Copy`: its clone is the same value.
pub assume_specification[<chrono::NaiveDateTime as core::clone::Clone>::clone](d: &chrono::NaiveDateTime) -> (r:
    chrono::NaiveDateTime)
    ensures
        r == *d,
;

/// What `Uuid::parse_str` makes of a string, when it accepts it.
pub uninterp spec fn uuid_parse(s: Seq<char>) -> Option<uuid::Uuid>;

/// Calls `uuid::Uuid::parse_str`: the result is named; the function depends on
/// its argument alone.
#[verifier::external_body]
fn parse_uuid(s: &str) -> (r: Option<uuid::Uuid>)
    ensures
        r == uuid_parse(s@),
{
    uuid::Uuid::parse_str(s).ok()
}

/// What `NaiveDateTime::parse_from_str` makes of a string in a format.
pub uninterp spec fn naive_datetime_parse(s: Seq<char>, fmt: Seq<char>) -> Option<chrono::NaiveDateTime>;

/// Calls `chrono::NaiveDateTime::parse_from_str`; the result is named.
#[verifier::external_body]
fn parse_naive_datetime(s: &str, fmt: &str) -> (r: Option<chrono::NaiveDateTime>)
    ensures
        r == naive_datetime_parse(s@, fmt@),
{
    chrono::NaiveDateTime::parse_from_str(s, fmt).ok()
}

/// What `NaiveDate::parse_from_str` makes of a string in a format.
pub uninterp spec fn naive_date_parse(s: Seq<char>, fmt: Seq<char>) -> Option<chrono::NaiveDate>;

/// Calls `chrono::NaiveDate::parse_from_str`; the result is named.
#[verifier::external_body]
fn parse_naive_date(s: &str, fmt: &str) -> (r: Option<chrono::NaiveDate>)
    ensures
        r == naive_date_parse(s@, fmt@),
{
    chrono::NaiveDate::parse_from_str(s, fmt).ok()
}

/// The start of a day.
pub uninterp spec fn date_midnight(d: chrono::NaiveDate) -> chrono::NaiveDateTime;

/// Calls `chrono::NaiveDate::and_hms_opt` with hour, minute and second zero, which
/// chrono documents as always valid; the result is named.
#[verifier::external_body]
fn midnight(d: &chrono::NaiveDate) -> (r: chrono::NaiveDateTime)
    ensures
        r == date_midnight(*d),
{
    d.and_hms_opt(0, 0, 0).unwrap()
}

/// What `DateTime::parse_from_str` makes of a string with an offset, as UTC.
pub uninterp spec fn offset_datetime_parse_utc(s: Seq<char>, fmt: Seq<char>) -> Option<chrono::NaiveDateTime>;

/// Calls `chrono::DateTime::parse_from_str` and takes the UTC time of the result
/// (`naive_utc`); the result is named.
#[verifier::external_body]
fn parse_offset_datetime(s: &str, fmt: &str) -> (r: Option<chrono::NaiveDateTime>)
    ensures
        r == offset_datetime_parse_utc(s@, fmt@),
{
    chrono::DateTime::parse_from_str(s, fmt).ok().map(|d| d.naive_utc())
}

// =============================================================================
// Values
// =============================================================================

/// A converted parameter value.
#[derive(Debug)]
pub enum Value {
    Str(String),
    Int(i64),
    I32(i32),
    Usize(usize),
    Bool(bool),
    Uuid(uuid::Uuid),
    DateTime(chrono::NaiveDateTime),
    /// A decimal floating-point number, kept as the text that was checked to
    /// spell one.
    FloatText(String),
    /// The values of a parameter that takes several.
    List(Vec<Value>),
}

/// `w` is a copy of `v`: the same value, and for a list, a list whose items
/// are copies of `v`'s items, item by item and at every depth. (Two lists are
/// different `Vec` values even when they hold the same items, so a copy is
/// stated by its contents.)
pub open spec fn copy_of(w: Value, v: Value) -> bool
    decreases v,
{
    match v {
        Value::List(x) => {
            proof {
                vstd::std_specs::vec::axiom_vec_decreases_to_view(x);
            }
            w matches Value::List(y) && copies(y@, x@)
        },
        _ => w == v,
    }
}

/// `ys` are copies of `xs`, item by item.
pub open spec fn copies(ys: Seq<Value>, xs: Seq<Value>) -> bool
    decreases xs,
{
    if xs.len() == 0 {
        ys.len() == 0
    } else {
        proof {
            vstd::seq::axiom_seq_subrange_decreases(xs, 1, xs.len() as int);
        }
        ys.len() == xs.len() && copy_of(ys[0], xs[0]) && copies(
            ys.subrange(1, ys.len() as int),
            xs.subrange(1, xs.len() as int),
        )
    }
}

/// Item by item: `copies` holds exactly when the lengths agree and each item
/// is a copy of the one at its place.
pub proof fn lemma_copies(ys: Seq<Value>, xs: Seq<Value>)
    ensures
        copies(ys, xs) <==> ys.len() == xs.len() && forall|k: int| 0 <= k < xs.len() ==> #[trigger] copy_of(ys[k], xs[k]),
    decreases xs.len(),
{
    if xs.len() > 0 && ys.len() == xs.len() {
        let ys1 = ys.subrange(1, ys.len() as int);
        let xs1 = xs.subrange(1, xs.len() as int);
        lemma_copies(ys1, xs1);
        if forall|k: int| 0 <= k < xs.len() ==> #[trigger] copy_of(ys[k], xs[k]) {
            assert forall|k: int| 0 <= k < xs1.len() implies #[trigger] copy_of(ys1[k], xs1[k]) by {
                assert(ys1[k] == ys[k + 1] && xs1[k] == xs[k + 1]);
            }
            assert(copy_of(ys[0], xs[0]));
            assert(copies(ys1, xs1));
            assert(copies(ys, xs));
        }
        if copies(ys, xs) {
            assert forall|k: int| 0 <= k < xs.len() implies #[trigger] copy_of(ys[k], xs[k]) by {
                if k > 0 {
                    assert(ys1[k - 1] == ys[k] && xs1[k - 1] == xs[k]);
                }
            }
        }
    }
}

/// A value that holds no list is copied only by itself.
pub proof fn lemma_copy_of_flat(w: Value, v: Value)
    requires
        !(v is List),
    ensures
        copy_of(w, v) <==> w == v,
{
}

impl Value {
    /// The text, if this is a text value.
    pub fn as_string(&self) -> (r: Option<&str>)
        ensures
            match *self {
                Value::Str(s) => r matches Some(x) && x@ == s@,
                _ => r is None,
            },
    {
        match self {
            Value::Str(s) => Some(s.as_str()),
            _ => None,
        }
    }

    /// The integer, if this is a 64-bit integer value.
    pub fn as_int(&self) -> (r: Option<i64>)
        ensures
            match *self {
                Value::Int(n) => r == Some(n),
                _ => r is None,
            },
    {
        match self {
            Value::Int(n) => Some(*n),
            _ => None,
        }
    }

    /// The boolean, if this is a boolean value.
    pub fn as_bool(&self) -> (r: Option<bool>)
        ensures
            match *self {
                Value::Bool(b) => r == Some(b),
                _ => r is None,
            },
    {
        match self {
            Value::Bool(b) => Some(*b),
            _ => None,
        }
    }

    /// The text of a floating-point number, if this is one.
    pub fn as_float_text(&self) -> (r: Option<&str>)
        ensures
            match *self {
                Value::FloatText(s) => r matches Some(x) && x@ == s@,
                _ => r is None,
            },
    {
        match self {
            Value::FloatText(s) => Some(s.as_str()),
            _ => None,
        }
    }

    /// A copy of the value.
    pub fn duplicate(&self) -> (r: Value)
        ensures
            copy_of(r, *self),
        decreases self,
    {
        match self {
            Value::Str(s) => Value::Str(s.clone()),
            Value::Int(n) => Value::Int(*n),
            Value::I32(n) => Value::I32(*n),
            Value::Usize(n) => Value::Usize(*n),
            Value::Bool(b) => Value::Bool(*b),
            Value::Uuid(u) => Value::Uuid(u.clone()),
            Value::DateTime(d) => Value::DateTime(d.clone()),
            Value::FloatText(s) => Value::FloatText(s.clone()),
            Value::List(items) => {
                let mut out: Vec<Value> = Vec::new();
                let mut i: usize = 0;
                while i < items.len()
                    invariant
                        i <= items@.len(),
                        forall|k: int| 0 <= k < i ==> #[trigger] copy_of(out@[k], items@[k]),
                        out@.len() == i,
                        *self == Value::List(*items),
                    decreases items@.len() - i,
                {
                    proof {
                        vstd::std_specs::vec::axiom_vec_index_decreases(*items, i as int);
                        assert(*items == (*self)->List_0);
                        assert(decreases_to!(*self => (*self)->List_0));
                    }
                    let ghost before = out@;
                    out.push(items[i].duplicate());
                    proof {
                        assert forall|k: int| 0 <= k < i + 1 implies #[trigger] copy_of(out@[k], items@[k]) by {
                            if k < i {
                                assert(out@[k] == before[k]);
                            }
                        }
                    }
                    i = i + 1;
                }
                proof {
                    lemma_copies(out@, items@);
                }
                Value::List(out)
            },
        }
    }
}

/// A Rust type a parameter value can be read as.
pub trait FromValue: Sized {
    /// Whether `v` holds a value of this type.
    spec fn holds(v: Value) -> bool;

    /// The value of this type that `v` holds, where it holds one.
    spec fn of(v: Value) -> Self;

    fn from_value(v: &Value) -> (r: Option<&Self>)
        ensures
            r is Some <==> Self::holds(*v),
            r matches Some(x) ==> *x == Self::of(*v),
    ;
}

impl FromValue for String {
    open spec fn holds(v: Value) -> bool {
        v is Str
    }

    open spec fn of(v: Value) -> String {
        match v {
            Value::Str(x) => x,
            _ => vstd::pervasive::arbitrary(),
        }
    }

    fn from_value(v: &Value) -> (r: Option<&String>)
        ensures
            match *v {
                Value::Str(s) => r == Some(&s),
                _ => r is None,
            },
    {
        match v {
            Value::Str(s) => Some(s),
            _ => None,
        }
    }
}

impl FromValue for i64 {
    open spec fn holds(v: Value) -> bool {
        v is Int
    }

    open spec fn of(v: Value) -> i64 {
        match v {
            Value::Int(x) => x,
            _ => vstd::pervasive::arbitrary(),
        }
    }

    fn from_value(v: &Value) -> (r: Option<&i64>)
        ensures
            match *v {
                Value::Int(n) => r == Some(&n),
                _ => r is None,
            },
    {
        match v {
            Value::Int(n) => Some(n),
            _ => None,
        }
    }
}

impl FromValue for i32 {
    open spec fn holds(v: Value) -> bool {
        v is I32
    }

    open spec fn of(v: Value) -> i32 {
        match v {
            Value::I32(x) => x,
            _ => vstd::pervasive::arbitrary(),
        }
    }

    fn from_value(v: &Value) -> (r: Option<&i32>)
        ensures
            match *v {
                Value::I32(n) => r == Some(&n),
                _ => r is None,
            },
    {
        match v {
            Value::I32(n) => Some(n),
            _ => None,
        }
    }
}

impl FromValue for usize {
    open spec fn holds(v: Value) -> bool {
        v is Usize
    }

    open spec fn of(v: Value) -> usize {
        match v {
            Value::Usize(x) => x,
            _ => vstd::pervasive::arbitrary(),
        }
    }

    fn from_value(v: &Value) -> (r: Option<&usize>)
        ensures
            match *v {
                Value::Usize(n) => r == Some(&n),
                _ => r is None,
            },
    {
        match v {
            Value::Usize(n) => Some(n),
            _ => None,
        }
    }
}

impl FromValue for bool {
    open spec fn holds(v: Value) -> bool {
        v is Bool
    }

    open spec fn of(v: Value) -> bool {
        match v {
            Value::Bool(x) => x,
            _ => vstd::pervasive::arbitrary(),
        }
    }

    fn from_value(v: &Value) -> (r: Option<&bool>)
        ensures
            match *v {
                Value::Bool(b) => r == Some(&b),
                _ => r is None,
            },
    {
        match v {
            Value::Bool(b) => Some(b),
            _ => None,
        }
    }
}

impl FromValue for uuid::Uuid {
    open spec fn holds(v: Value) -> bool {
        v is Uuid
    }

    open spec fn of(v: Value) -> uuid::Uuid {
        match v {
            Value::Uuid(x) => x,
            _ => vstd::pervasive::arbitrary(),
        }
    }

    fn from_value(v: &Value) -> (r: Option<&uuid::Uuid>) {
        match v {
            Value::Uuid(u) => Some(u),
            _ => None,
        }
    }
}

impl FromValue for chrono::NaiveDateTime {
    open spec fn holds(v: Value) -> bool {
        v is DateTime
    }

    open spec fn of(v: Value) -> chrono::NaiveDateTime {
        match v {
            Value::DateTime(x) => x,
            _ => vstd::pervasive::arbitrary(),
        }
    }

    fn from_value(v: &Value) -> (r: Option<&chrono::NaiveDateTime>) {
        match v {
            Value::DateTime(d) => Some(d),
            _ => None,
        }
    }
}

impl FromValue for Vec<Value> {
    open spec fn holds(v: Value) -> bool {
        v is List
    }

    open spec fn of(v: Value) -> Vec<Value> {
        match v {
            Value::List(x) => x,
            _ => vstd::pervasive::arbitrary(),
        }
    }

    fn from_value(v: &Value) -> (r: Option<&Vec<Value>>) {
        match v {
            Value::List(l) => Some(l),
            _ => None,
        }
    }
}

// =============================================================================
// The converter trait
// =============================================================================

/// A shell completion item.
#[derive(Debug, Clone, PartialEq, Eq)]
pub struct CompletionItem {
    pub value: String,
    /// The kind of completion: "plain", "file", "dir".
    pub completion_type: String,
    pub help: Option<String>,
}

impl CompletionItem {
    /// A plain completion.
    pub fn new<S: IntoText>(value: S) -> (r: Self)
        ensures
            r.value@ == value.text(),
            r.completion_type@ == "plain"@,
            r.help is None,
    {
        CompletionItem { value: value.into_string(), completion_type: String::from_str("plain"), help: None }
    }

    /// A completion of a given kind.
    pub fn with_type<S: IntoText, T: IntoText>(value: S, completion_type: T) -> (r: Self)
        ensures
            r.value@ == value.text(),
            r.completion_type@ == completion_type.text(),
            r.help is None,
    {
        CompletionItem { value: value.into_string(), completion_type: completion_type.into_string(), help: None }
    }

    /// The same completion with help text.
    pub fn with_help<S: IntoText>(self, help: S) -> (r: Self)
        ensures
            r == (CompletionItem { help: r.help, ..self }),
            opt_view(r.help) == Some(help.text()),
    {
        let mut s = self;
        s.help = Some(help.into_string());
        s
    }
}

/// How a parameter type converts and checks a value given as text.
pub trait TypeConverter {
    /// The type's name.
    spec fn spec_name(&self) -> Seq<char>;

    /// The placeholder for the value in help, if the type has one.
    spec fn spec_metavar(&self) -> Option<Seq<char>>;

    /// Whether `r` are the completions of the type for `incomplete`.
    spec fn spec_completes(&self, incomplete: Seq<char>, r: Seq<CompletionItem>) -> bool;

    /// The type's name, used in messages.
    fn name(&self) -> (r: &str)
        ensures
            r@ == self.spec_name(),
    ;

    /// Whether converting `input` may give `out`.
    spec fn converts(&self, input: Seq<char>, out: Result<Value, String>) -> bool;

    /// Convert a value, or say in a message why it is not valid.
    fn convert(&self, value: &str) -> (r: Result<Value, String>)
        ensures
            self.converts(value@, r),
    ;

    /// The placeholder for the value in help.
    fn get_metavar(&self) -> (r: Option<String>)
        ensures
            r is Some == self.spec_metavar() is Some,
            r matches Some(m) ==> m@ == self.spec_metavar()->0,
    ;

    /// A message to add when a required value is missing.
    fn get_missing_message(&self) -> Option<String> {
        None
    }

    /// Split the value of an environment variable into several values: at
    /// whitespace.
    fn split_envvar_value(&self, value: &str) -> (r: Vec<String>)
        ensures
            r.deep_view() == words(value@),
    {
        split_whitespace(value)
    }

    /// Completions for a partly typed value.
    fn shell_complete(&self, incomplete: &str) -> (r: Vec<CompletionItem>)
        ensures
            self.spec_completes(incomplete@, r@),
    ;

    /// Whether the type takes several values as one (like a tuple).
    fn is_composite(&self) -> bool {
        false
    }

    /// How many values a composite type takes.
    fn arity(&self) -> usize {
        1
    }
}

// =============================================================================
// Simple types
// =============================================================================

/// Text, passed through as it is.
#[derive(Debug, Clone, Copy, Default)]
pub struct StringType;

pub const STRING: StringType = StringType;

impl StringType {
    pub fn convert_text(value: &str) -> (r: Result<Value, String>)
        ensures
            r matches Ok(Value::Str(s)) && s@ == value@,
    {
        Ok(Value::Str(str_of(value)))
    }
}

impl TypeConverter for StringType {
    open spec fn spec_completes(&self, incomplete: Seq<char>, r: Seq<CompletionItem>) -> bool {
        r.len() == 0
    }

    fn shell_complete(&self, incomplete: &str) -> (r: Vec<CompletionItem>) {
        Vec::new()
    }

    open spec fn spec_metavar(&self) -> Option<Seq<char>> {
        Some("TEXT"@)
    }

    open spec fn spec_name(&self) -> Seq<char> {
        "TEXT"@
    }

    fn name(&self) -> (r: &str) {
        proof {
            reveal_strlit("TEXT");
        }
        "TEXT"
    }

    open spec fn converts(&self, input: Seq<char>, out: Result<Value, String>) -> bool {
            out matches Ok(Value::Str(s)) && s@ == input
    }

    fn convert(&self, value: &str) -> (r: Result<Value, String>)
    {
        StringType::convert_text(value)
    }

    fn get_metavar(&self) -> (r: Option<String>) {
        proof {
            reveal_strlit("TEXT");
        }
        Some(String::from_str("TEXT"))
    }
}

/// An integer.
#[derive(Debug, Clone, Copy, Default)]
pub struct IntType;

pub const INT: IntType = IntType;

pub open spec fn int_error(v: Seq<char>) -> Seq<char> {
    "'"@ + v + "' is not a valid integer."@
}

impl IntType {
    /// The value, surrounding whitespace ignored, as a 64-bit integer.
    pub fn convert_int(value: &str) -> (r: Result<i64, String>)
        ensures
            match parse_i64_seq(trim_seq(value@)) {
                Some(n) => r == Ok::<i64, String>(n),
                None => r matches Err(m) && m@ == int_error(value@),
            },
    {
        let t = trim(value);
        match parse_i64(t.as_str()) {
            Some(n) => Ok(n),
            None => Err(cat3("'", value, "' is not a valid integer.")),
        }
    }
}

impl TypeConverter for IntType {
    open spec fn spec_completes(&self, incomplete: Seq<char>, r: Seq<CompletionItem>) -> bool {
        r.len() == 0
    }

    fn shell_complete(&self, incomplete: &str) -> (r: Vec<CompletionItem>) {
        Vec::new()
    }

    open spec fn spec_metavar(&self) -> Option<Seq<char>> {
        Some("INTEGER"@)
    }

    open spec fn spec_name(&self) -> Seq<char> {
        "INTEGER"@
    }

    fn name(&self) -> (r: &str) {
        proof {
            reveal_strlit("INTEGER");
        }
        "INTEGER"
    }

    open spec fn converts(&self, input: Seq<char>, out: Result<Value, String>) -> bool {
            match parse_i64_seq(trim_seq(input)) {
                Some(n) => out matches Ok(Value::Int(x)) && x == n,
                None => out matches Err(m) && m@ == int_error(input),
            }
    }

    fn convert(&self, value: &str) -> (r: Result<Value, String>)
    {
        match IntType::convert_int(value) {
            Ok(n) => Ok(Value::Int(n)),
            Err(e) => Err(e),
        }
    }

    fn get_metavar(&self) -> (r: Option<String>) {
        proof {
            reveal_strlit("INTEGER");
        }
        Some(String::from_str("INTEGER"))
    }
}

/// A boolean given as one of the recognized words.
#[derive(Debug, Clone, Copy, Default)]
pub struct BoolType;

pub const BOOL: BoolType = BoolType;

/// The boolean a (trimmed, lower-cased) word stands for.
pub open spec fn bool_word(w: Seq<char>) -> Option<bool> {
    if w == "1"@ || w == "true"@ || w == "yes"@ || w == "on"@ || w == "t"@ || w == "y"@ {
        Some(true)
    } else if w == "0"@ || w == "false"@ || w == "no"@ || w == "off"@ || w == "f"@ || w == "n"@ || w == ""@ {
        Some(false)
    } else {
        None
    }
}

pub open spec fn bool_error(v: Seq<char>) -> Seq<char> {
    "'"@ + v + "' is not a valid boolean. Recognized values: , 0, 1, f, false, n, no, off, on, t, true, y, yes"@
}

impl BoolType {
    /// The boolean a string stands for, ignoring surrounding whitespace and case.
    pub fn str_to_bool(value: &str) -> (r: Option<bool>)
        ensures
            r == bool_word(lower_of(trim_seq(value@))),
    {
        let t = trim(value);
        let w = to_lower(t.as_str());
        let s = w.as_str();
        if str_eq(s, "1") || str_eq(s, "true") || str_eq(s, "yes") || str_eq(s, "on") || str_eq(s, "t") || str_eq(s, "y") {
            Some(true)
        } else if str_eq(s, "0") || str_eq(s, "false") || str_eq(s, "no") || str_eq(s, "off") || str_eq(s, "f")
            || str_eq(s, "n") || str_eq(s, "") {
            Some(false)
        } else {
            None
        }
    }
}

impl TypeConverter for BoolType {
    open spec fn spec_completes(&self, incomplete: Seq<char>, r: Seq<CompletionItem>) -> bool {
        r.len() == 0
    }

    fn shell_complete(&self, incomplete: &str) -> (r: Vec<CompletionItem>) {
        Vec::new()
    }

    open spec fn spec_metavar(&self) -> Option<Seq<char>> {
        Some("BOOLEAN"@)
    }

    open spec fn spec_name(&self) -> Seq<char> {
        "BOOLEAN"@
    }

    fn name(&self) -> (r: &str) {
        proof {
            reveal_strlit("BOOLEAN");
        }
        "BOOLEAN"
    }

    open spec fn converts(&self, input: Seq<char>, out: Result<Value, String>) -> bool {
            match bool_word(lower_of(trim_seq(input))) {
                Some(b) => out matches Ok(Value::Bool(x)) && x == b,
                None => out matches Err(m) && m@ == bool_error(input),
            }
    }

    fn convert(&self, value: &str) -> (r: Result<Value, String>)
    {
        match BoolType::str_to_bool(value) {
            Some(b) => Ok(Value::Bool(b)),
            None => Err(cat3(
                "'",
                value,
                "' is not a valid boolean. Recognized values: , 0, 1, f, false, n, no, off, on, t, true, y, yes",
            )),
        }
    }

    fn get_metavar(&self) -> (r: Option<String>) {
        proof {
            reveal_strlit("BOOLEAN");
        }
        Some(String::from_str("BOOLEAN"))
    }
}

/// A UUID.
#[derive(Debug, Clone, Copy, Default)]
pub struct UuidType;

pub const UUID: UuidType = UuidType;

impl TypeConverter for UuidType {
    open spec fn spec_completes(&self, incomplete: Seq<char>, r: Seq<CompletionItem>) -> bool {
        r.len() == 0
    }

    fn shell_complete(&self, incomplete: &str) -> (r: Vec<CompletionItem>) {
        Vec::new()
    }

    open spec fn spec_metavar(&self) -> Option<Seq<char>> {
        Some("UUID"@)
    }

    open spec fn spec_name(&self) -> Seq<char> {
        "UUID"@
    }

    fn name(&self) -> (r: &str) {
        proof {
            reveal_strlit("UUID");
        }
        "UUID"
    }

    open spec fn converts(&self, input: Seq<char>, out: Result<Value, String>) -> bool {
            match uuid_parse(trim_seq(input)) {
                Some(u) => out matches Ok(Value::Uuid(x)) && x == u,
                None => out matches Err(m) && m@ == "'"@ + input + "' is not a valid UUID"@,
            }
    }

    fn convert(&self, value: &str) -> (r: Result<Value, String>)
    {
        let t = trim(value);
        match parse_uuid(t.as_str()) {
            Some(u) => Ok(Value::Uuid(u)),
            None => Err(cat3("'", value, "' is not a valid UUID")),
        }
    }

    fn get_metavar(&self) -> (r: Option<String>) {
        proof {
            reveal_strlit("UUID");
        }
        Some(String::from_str("UUID"))
    }
}

/// Text passed through with no processing at all.
#[derive(Debug, Clone, Copy, Default)]
pub struct UnprocessedType;

pub const UNPROCESSED: UnprocessedType = UnprocessedType;

impl TypeConverter for UnprocessedType {
    open spec fn spec_completes(&self, incomplete: Seq<char>, r: Seq<CompletionItem>) -> bool {
        r.len() == 0
    }

    fn shell_complete(&self, incomplete: &str) -> (r: Vec<CompletionItem>) {
        Vec::new()
    }

    open spec fn spec_metavar(&self) -> Option<Seq<char>> {
        None
    }

    open spec fn spec_name(&self) -> Seq<char> {
        "TEXT"@
    }

    fn name(&self) -> (r: &str) {
        proof {
            reveal_strlit("TEXT");
        }
        "TEXT"
    }

    open spec fn converts(&self, input: Seq<char>, out: Result<Value, String>) -> bool {
            out matches Ok(Value::Str(s)) && s@ == input
    }

    fn convert(&self, value: &str) -> (r: Result<Value, String>)
    {
        Ok(Value::Str(str_of(value)))
    }

    fn get_metavar(&self) -> (r: Option<String>) {
        None
    }
}

// =============================================================================
// Integer ranges
// =============================================================================

/// An integer restricted to a range; out-of-range values are an error, or are
/// clamped to the range.
#[derive(Debug, Clone, Copy)]
pub struct IntRange {
    pub min: Option<i64>,
    pub max: Option<i64>,
    /// The minimum itself is excluded.
    pub min_open: bool,
    /// The maximum itself is excluded.
    pub max_open: bool,
    pub clamp: bool,
}

pub open spec fn sat_add1(n: i64) -> i64 {
    if n < i64::MAX {
        (n + 1) as i64
    } else {
        n
    }
}

pub open spec fn sat_sub1(n: i64) -> i64 {
    if n > i64::MIN {
        (n - 1) as i64
    } else {
        n
    }
}

impl IntRange {
    /// An unbounded range.
    pub fn new() -> (r: Self)
        ensures
            r.min is None && r.max is None && !r.min_open && !r.max_open && !r.clamp,
    {
        IntRange { min: None, max: None, min_open: false, max_open: false, clamp: false }
    }

    pub fn min(self, min: i64) -> (r: Self)
        ensures
            r == (IntRange { min: Some(min), ..self }),
    {
        let mut s = self;
        s.min = Some(min);
        s
    }

    pub fn max(self, max: i64) -> (r: Self)
        ensures
            r == (IntRange { max: Some(max), ..self }),
    {
        let mut s = self;
        s.max = Some(max);
        s
    }

    pub fn range(self, min: i64, max: i64) -> (r: Self)
        ensures
            r == (IntRange { min: Some(min), max: Some(max), ..self }),
    {
        let mut s = self;
        s.min = Some(min);
        s.max = Some(max);
        s
    }

    pub fn min_open(self, open: bool) -> (r: Self)
        ensures
            r == (IntRange { min_open: open, ..self }),
    {
        let mut s = self;
        s.min_open = open;
        s
    }

    pub fn max_open(self, open: bool) -> (r: Self)
        ensures
            r == (IntRange { max_open: open, ..self }),
    {
        let mut s = self;
        s.max_open = open;
        s
    }

    pub fn clamp(self, clamp: bool) -> (r: Self)
        ensures
            r == (IntRange { clamp, ..self }),
    {
        let mut s = self;
        s.clamp = clamp;
        s
    }

    /// The range in words, for messages.
    pub open spec fn spec_describe(self) -> Seq<char> {
        match (self.min, self.max) {
            (None, None) => "any integer"@,
            (Some(lo), None) => "x"@ + (if self.min_open { ">"@ } else { ">="@ }) + int_to_dec(lo as int),
            (None, Some(hi)) => "x"@ + (if self.max_open { "<"@ } else { "<="@ }) + int_to_dec(hi as int),
            (Some(lo), Some(hi)) => int_to_dec(lo as int) + (if self.min_open { "<"@ } else { "<="@ }) + "x"@ + (
            if self.max_open {
                "<"@
            } else {
                "<="@
            }) + int_to_dec(hi as int),
        }
    }

    fn describe_range(&self) -> (r: String)
        ensures
            r@ == self.spec_describe(),
    {
        match (self.min, self.max) {
            (None, None) => String::from_str("any integer"),
            (Some(lo), None) => {
                let d = i64_to_string(lo);
                cat3("x", if self.min_open { ">" } else { ">=" }, d.as_str())
            },
            (None, Some(hi)) => {
                let d = i64_to_string(hi);
                cat3("x", if self.max_open { "<" } else { "<=" }, d.as_str())
            },
            (Some(lo), Some(hi)) => {
                let a = i64_to_string(lo);
                let b = i64_to_string(hi);
                let left = cat3(a.as_str(), if self.min_open { "<" } else { "<=" }, "x");
                cat3(left.as_str(), if self.max_open { "<" } else { "<=" }, b.as_str())
            },
        }
    }

    /// Whether `v` lies below the range.
    pub open spec fn below(self, v: i64) -> bool {
        match self.min {
            Some(lo) => if self.min_open { v <= lo } else { v < lo },
            None => false,
        }
    }

    /// Whether `v` lies above the range.
    pub open spec fn above(self, v: i64) -> bool {
        match self.max {
            Some(hi) => if self.max_open { v >= hi } else { v > hi },
            None => false,
        }
    }

    /// `v` moved to the nearest value of the range (an open bound moved by one).
    pub open spec fn spec_clamp(self, v: i64) -> i64 {
        let a = match self.min {
            Some(lo) => {
                let m = if self.min_open { sat_add1(lo) } else { lo };
                if v < m { m } else { v }
            },
            None => v,
        };
        match self.max {
            Some(hi) => {
                let m = if self.max_open { sat_sub1(hi) } else { hi };
                if a > m { m } else { a }
            },
            None => a,
        }
    }

    fn clamp_value(&self, value: i64) -> (r: i64)
        ensures
            r == self.spec_clamp(value),
    {
        let mut result = value;
        match self.min {
            Some(lo) => {
                let m = if self.min_open {
                    if lo < i64::MAX { lo + 1 } else { lo }
                } else {
                    lo
                };
                if result < m {
                    result = m;
                }
            },
            None => {},
        }
        match self.max {
            Some(hi) => {
                let m = if self.max_open {
                    if hi > i64::MIN { hi - 1 } else { hi }
                } else {
                    hi
                };
                if result > m {
                    result = m;
                }
            },
            None => {},
        }
        result
    }

    /// What converting a value gives: the integer, clamped or refused when it lies
    /// outside the range.
    pub open spec fn spec_convert(self, value: Seq<char>) -> Result<i64, Seq<char>> {
        match parse_i64_seq(trim_seq(value)) {
            None => Err("'"@ + value + "' is not a valid integer range."@),
            Some(n) => if self.below(n) || self.above(n) {
                if self.clamp {
                    Ok(self.spec_clamp(n))
                } else {
                    Err(int_to_dec(n as int) + " is not in the range "@ + self.spec_describe() + "."@)
                }
            } else {
                Ok(n)
            },
        }
    }

    pub fn convert_int(&self, value: &str) -> (r: Result<i64, String>)
        ensures
            match self.spec_convert(value@) {
                Ok(n) => r == Ok::<i64, String>(n),
                Err(m) => r matches Err(x) && x@ == m,
            },
    {
        let t = trim(value);
        let parsed = match parse_i64(t.as_str()) {
            Some(n) => n,
            None => {
                return Err(cat3("'", value, "' is not a valid integer range."));
            },
        };
        let lt_min = match self.min {
            Some(lo) => if self.min_open { parsed <= lo } else { parsed < lo },
            None => false,
        };
        let gt_max = match self.max {
            Some(hi) => if self.max_open { parsed >= hi } else { parsed > hi },
            None => false,
        };
        if self.clamp && (lt_min || gt_max) {
            return Ok(self.clamp_value(parsed));
        }
        if lt_min || gt_max {
            let d = i64_to_string(parsed);
            let r = self.describe_range();
            return Err(cat4(d.as_str(), " is not in the range ", r.as_str(), "."));
        }
        Ok(parsed)
    }
}

impl TypeConverter for IntRange {
    open spec fn spec_completes(&self, incomplete: Seq<char>, r: Seq<CompletionItem>) -> bool {
        r.len() == 0
    }

    fn shell_complete(&self, incomplete: &str) -> (r: Vec<CompletionItem>) {
        Vec::new()
    }

    open spec fn spec_metavar(&self) -> Option<Seq<char>> {
        Some("INTEGER RANGE "@ + self.spec_describe())
    }

    open spec fn spec_name(&self) -> Seq<char> {
        "INTEGER RANGE"@
    }

    fn name(&self) -> (r: &str) {
        proof {
            reveal_strlit("INTEGER RANGE");
        }
        "INTEGER RANGE"
    }

    open spec fn converts(&self, input: Seq<char>, out: Result<Value, String>) -> bool {
            match self.spec_convert(input) {
                Ok(n) => out matches Ok(Value::Int(x)) && x == n,
                Err(m) => out matches Err(x) && x@ == m,
            }
    }

    fn convert(&self, value: &str) -> (r: Result<Value, String>)
    {
        match self.convert_int(value) {
            Ok(n) => Ok(Value::Int(n)),
            Err(e) => Err(e),
        }
    }

    fn get_metavar(&self) -> (r: Option<String>)
        ensures
            r matches Some(m) && m@ == "INTEGER RANGE "@ + self.spec_describe(),
    {
        let d = self.describe_range();
        Some(cat2("INTEGER RANGE ", d.as_str()))
    }
}

// =============================================================================
// Date and time
// =============================================================================

/// A date and time in one of several formats, tried in order.
#[derive(Debug, Clone)]
pub struct DateTimeType {
    pub formats: Vec<String>,
}

pub open spec fn default_datetime_formats() -> Seq<Seq<char>> {
    seq![
        "%Y-%m-%d"@,
        "%Y-%m-%dT%H:%M:%S"@,
        "%Y-%m-%d %H:%M:%S"@,
        "%Y-%m-%dT%H:%M:%S%.f"@,
        "%Y-%m-%dT%H:%M:%S%z"@,
        "%Y-%m-%dT%H:%M:%S%.f%z"@,
    ]
}

/// The first format that reads the value, as a date and time, then as a date (at
/// midnight), then as a date and time with an offset (in UTC).
pub open spec fn parse_with_formats(v: Seq<char>, fs: Seq<Seq<char>>) -> Option<chrono::NaiveDateTime>
    decreases fs.len(),
{
    if fs.len() == 0 {
        None
    } else {
        match naive_datetime_parse(v, fs[0]) {
            Some(d) => Some(d),
            None => match naive_date_parse(v, fs[0]) {
                Some(d) => Some(date_midnight(d)),
                None => match offset_datetime_parse_utc(v, fs[0]) {
                    Some(d) => Some(d),
                    None => parse_with_formats(v, fs.drop_first()),
                },
            },
        }
    }
}

impl DateTimeType {
    /// The default formats: dates, and dates with times.
    pub fn new() -> (r: Self)
        ensures
            r.formats.deep_view() == default_datetime_formats(),
    {
        let mut f: Vec<String> = Vec::new();
        f.push(String::from_str("%Y-%m-%d"));
        f.push(String::from_str("%Y-%m-%dT%H:%M:%S"));
        f.push(String::from_str("%Y-%m-%d %H:%M:%S"));
        f.push(String::from_str("%Y-%m-%dT%H:%M:%S%.f"));
        f.push(String::from_str("%Y-%m-%dT%H:%M:%S%z"));
        f.push(String::from_str("%Y-%m-%dT%H:%M:%S%.f%z"));
        assert(f.deep_view() =~= default_datetime_formats());
        DateTimeType { formats: f }
    }

    /// Formats of one's own.
    pub fn with_formats(formats: &[&str]) -> (r: Self)
        ensures
            r.formats.deep_view() == formats@.map_values(|x: &str| x@),
    {
        let mut f: Vec<String> = Vec::new();
        let mut i: usize = 0;
        while i < formats.len()
            invariant
                i <= formats@.len(),
                f.deep_view() =~= formats@.take(i as int).map_values(|x: &str| x@),
            decreases formats@.len() - i,
        {
            let ghost od = f.deep_view();
            f.push(String::from_str(formats[i]));
            assert(f.deep_view() =~= od.push(formats@[i as int]@));
            assert(formats@.take(i + 1).map_values(|x: &str| x@) =~= formats@.take(i as int).map_values(|x: &str| x@).push(formats@[i as int]@));
            i = i + 1;
        }
        assert(formats@.take(formats@.len() as int) =~= formats@);
        DateTimeType { formats: f }
    }
}

impl TypeConverter for DateTimeType {
    open spec fn spec_completes(&self, incomplete: Seq<char>, r: Seq<CompletionItem>) -> bool {
        r.len() == 0
    }

    fn shell_complete(&self, incomplete: &str) -> (r: Vec<CompletionItem>) {
        Vec::new()
    }

    open spec fn spec_metavar(&self) -> Option<Seq<char>> {
        Some("["@ + join_seq(self.formats.deep_view(), "|"@) + "]"@)
    }

    open spec fn spec_name(&self) -> Seq<char> {
        "DATETIME"@
    }

    fn name(&self) -> (r: &str) {
        proof {
            reveal_strlit("DATETIME");
        }
        "DATETIME"
    }

    open spec fn converts(&self, input: Seq<char>, out: Result<Value, String>) -> bool {
            match parse_with_formats(trim_seq(input), self.formats.deep_view()) {
                Some(d) => out matches Ok(Value::DateTime(x)) && x == d,
                None => out matches Err(m) && m@ == "'"@ + trim_seq(input) + "' does not match the formats: "@ + join_seq(self.formats.deep_view(), ", "@),
            }
    }

    fn convert(&self, value: &str) -> (r: Result<Value, String>)
    {
        let t = trim(value);
        let ghost fv = self.formats.deep_view();
        let mut i: usize = 0;
        assert(fv.skip(0) =~= fv);
        while i < self.formats.len()
            invariant
                i <= fv.len(),
                fv == self.formats.deep_view(),
                t@ == trim_seq(value@),
                parse_with_formats(t@, fv) == parse_with_formats(t@, fv.skip(i as int)),
            decreases fv.len() - i,
        {
            assert(fv.skip(i as int).drop_first() =~= fv.skip(i + 1));
            assert(fv.skip(i as int)[0] == self.formats@[i as int]@);
            let f = self.formats[i].as_str();
            match parse_naive_datetime(t.as_str(), f) {
                Some(d) => {
                    return Ok(Value::DateTime(d));
                },
                None => {},
            }
            match parse_naive_date(t.as_str(), f) {
                Some(d) => {
                    return Ok(Value::DateTime(midnight(&d)));
                },
                None => {},
            }
            match parse_offset_datetime(t.as_str(), f) {
                Some(d) => {
                    return Ok(Value::DateTime(d));
                },
                None => {},
            }
            i = i + 1;
        }
        assert(fv.skip(i as int) =~= Seq::<Seq<char>>::empty());
        let all = join(&self.formats, ", ");
        let msg = cat3("'", t.as_str(), cat2("' does not match the formats: ", all.as_str()).as_str());
        assert(msg@ =~= "'"@ + trim_seq(value@) + "' does not match the formats: "@ + join_seq(self.formats.deep_view(), ", "@));
        let r = Err(msg);
        assert(self.converts(value@, r));
        r
    }

    fn get_metavar(&self) -> (r: Option<String>)
        ensures
            r matches Some(m) && m@ == "["@ + join_seq(self.formats.deep_view(), "|"@) + "]"@,
    {
        let all = join(&self.formats, "|");
        Some(cat3("[", all.as_str(), "]"))
    }
}

// =============================================================================
// Choices
// =============================================================================

/// One of a fixed set of values, matched with or without case.
#[derive(Debug, Clone)]
pub struct Choice {
    pub choices: Vec<String>,
    pub case_sensitive: bool,
}

pub open spec fn strs_view(v: Seq<&str>) -> Seq<Seq<char>> {
    v.map_values(|x: &str| x@)
}

fn strings_of(v: &[&str]) -> (r: Vec<String>)
    ensures
        r.deep_view() == strs_view(v@),
{
    let mut f: Vec<String> = Vec::new();
    let mut i: usize = 0;
    while i < v.len()
        invariant
            i <= v@.len(),
            f.deep_view() =~= strs_view(v@.take(i as int)),
        decreases v@.len() - i,
    {
        let ghost od = f.deep_view();
        f.push(String::from_str(v[i]));
        assert(f.deep_view() =~= od.push(v@[i as int]@));
        assert(strs_view(v@.take(i + 1)) =~= strs_view(v@.take(i as int)).push(v@[i as int]@));
        i = i + 1;
    }
    assert(v@.take(v@.len() as int) =~= v@);
    f
}

/// Each string in single quotes.
pub open spec fn quoted_all(v: Seq<Seq<char>>) -> Seq<Seq<char>> {
    v.map_values(|c: Seq<char>| "'"@ + c + "'"@)
}

impl Choice {
    /// The choices, matched with case.
    pub fn new(choices: &[&str]) -> (r: Self)
        ensures
            r.choices.deep_view() == strs_view(choices@),
            r.case_sensitive,
    {
        Choice { choices: strings_of(choices), case_sensitive: true }
    }

    pub fn case_sensitive(self, case_sensitive: bool) -> (r: Self)
        ensures
            r == (Choice { case_sensitive, ..self }),
    {
        let mut s = self;
        s.case_sensitive = case_sensitive;
        s
    }

    /// A value as it is compared: lower-cased unless matching is case-sensitive.
    pub open spec fn norm(self, v: Seq<char>) -> Seq<char> {
        if self.case_sensitive {
            v
        } else {
            lower_of(v)
        }
    }

    fn normalize(&self, v: &str) -> (r: String)
        ensures
            r@ == self.norm(v@),
    {
        if self.case_sensitive {
            str_of(v)
        } else {
            to_lower(v)
        }
    }

    /// Index of the first choice that matches `v`.
    pub open spec fn first_match(self, v: Seq<char>, cs: Seq<Seq<char>>) -> Option<int>
        decreases cs.len(),
    {
        if cs.len() == 0 {
            None
        } else if self.norm(cs.last()) == self.norm(v) && self.first_match(v, cs.drop_last()) is None {
            Some(cs.len() - 1)
        } else {
            self.first_match(v, cs.drop_last())
        }
    }

    pub open spec fn spec_error(self, v: Seq<char>) -> Seq<char> {
        let cs = self.choices.deep_view();
        if cs.len() == 1 {
            "'"@ + v + "' is not '"@ + cs[0] + "'."@
        } else {
            "'"@ + v + "' is not one of "@ + join_seq(quoted_all(cs), ", "@) + "."@
        }
    }
}

proof fn lemma_first_match_bound(c: Choice, v: Seq<char>, cs: Seq<Seq<char>>)
    ensures
        c.first_match(v, cs) matches Some(k) ==> 0 <= k < cs.len() && c.norm(cs[k]) == c.norm(v)
            && forall|j: int| 0 <= j < k ==> c.norm(#[trigger] cs[j]) != c.norm(v),
        c.first_match(v, cs) is None ==> forall|j: int| 0 <= j < cs.len() ==> c.norm(#[trigger] cs[j]) != c.norm(v),
    decreases cs.len(),
{
    if cs.len() > 0 {
        lemma_first_match_bound(c, v, cs.drop_last());
        assert forall|j: int| 0 <= j < cs.len() - 1 implies cs.drop_last()[j] == #[trigger] cs[j] by {}
    }
}

impl TypeConverter for Choice {
    open spec fn spec_completes(&self, incomplete: Seq<char>, r: Seq<CompletionItem>) -> bool {
        &&& r.map_values(|c: CompletionItem| c.value@) == self.choices.deep_view().filter(
            |c: Seq<char>| seq_starts_with(self.norm(c), self.norm(incomplete)),
        )
        &&& forall|k: int| 0 <= k < r.len() ==> (#[trigger] r[k]).completion_type@ == "plain"@ && r[k].help is None
    }

    open spec fn spec_metavar(&self) -> Option<Seq<char>> {
        Some("["@ + join_seq(self.choices.deep_view(), "|"@) + "]"@)
    }

    open spec fn spec_name(&self) -> Seq<char> {
        "CHOICE"@
    }

    fn name(&self) -> (r: &str) {
        proof {
            reveal_strlit("CHOICE");
        }
        "CHOICE"
    }

    /// The first matching choice as it was given (not as typed).
    open spec fn converts(&self, input: Seq<char>, out: Result<Value, String>) -> bool {
            match self.first_match(input, self.choices.deep_view()) {
                Some(k) => out matches Ok(Value::Str(s)) && s@ == self.choices.deep_view()[k],
                None => out matches Err(m) && m@ == self.spec_error(input),
            }
    }

    fn convert(&self, value: &str) -> (r: Result<Value, String>)
    {
        let nv = self.normalize(value);
        let ghost cs = self.choices.deep_view();
        let mut i: usize = 0;
        proof {
            lemma_first_match_bound(*self, value@, cs);
        }
        while i < self.choices.len()
            invariant
                i <= cs.len(),
                cs == self.choices.deep_view(),
                nv@ == self.norm(value@),
                forall|j: int| 0 <= j < i ==> self.norm(#[trigger] cs[j]) != self.norm(value@),
                self.first_match(value@, cs) matches Some(k) ==> 0 <= k < cs.len() && self.norm(cs[k]) == self.norm(value@)
                    && forall|j: int| 0 <= j < k ==> self.norm(#[trigger] cs[j]) != self.norm(value@),
                self.first_match(value@, cs) is None ==> forall|j: int| 0 <= j < cs.len() ==> self.norm(#[trigger] cs[j]) != self.norm(value@),
            decreases cs.len() - i,
        {
            let nc = self.normalize(self.choices[i].as_str());
            assert(self.choices@[i as int]@ == cs[i as int]);
            if str_eq(nc.as_str(), nv.as_str()) {
                return Ok(Value::Str(self.choices[i].clone()));
            }
            i = i + 1;
        }
        if self.choices.len() == 1 {
            assert(self.choices@[0]@ == cs[0]);
            let msg = cat5("'", value, "' is not '", self.choices[0].as_str(), "'.");
            let r = Err(msg);
            assert(self.converts(value@, r));
            r
        } else {
            let mut quoted: Vec<String> = Vec::new();
            let mut k: usize = 0;
            while k < self.choices.len()
                invariant
                    k <= cs.len(),
                    cs == self.choices.deep_view(),
                    quoted.deep_view() =~= quoted_all(cs.take(k as int)),
                decreases cs.len() - k,
            {
                let ghost od = quoted.deep_view();
                quoted.push(cat3("'", self.choices[k].as_str(), "'"));
                assert(self.choices@[k as int]@ == cs[k as int]);
                assert(quoted.deep_view() =~= od.push("'"@ + cs[k as int] + "'"@));
                assert(quoted_all(cs.take(k + 1)) =~= quoted_all(cs.take(k as int)).push("'"@ + cs[k as int] + "'"@));
                k = k + 1;
            }
            assert(cs.take(cs.len() as int) =~= cs);
            let all = join(&quoted, ", ");
            let msg = cat4("'", value, "' is not one of ", cat2(all.as_str(), ".").as_str());
            assert(msg@ =~= "'"@ + value@ + "' is not one of "@ + join_seq(quoted_all(cs), ", "@) + "."@);
            let r = Err(msg);
            assert(self.converts(value@, r));
            r
        }
    }

    fn get_metavar(&self) -> (r: Option<String>)
        ensures
            r matches Some(m) && m@ == "["@ + join_seq(self.choices.deep_view(), "|"@) + "]"@,
    {
        let all = join(&self.choices, "|");
        Some(cat3("[", all.as_str(), "]"))
    }

    fn get_missing_message(&self) -> (r: Option<String>)
        ensures
            r matches Some(m) && m@ == "Choose from:\n\t"@ + join_seq(self.choices.deep_view(), ",\n\t"@),
    {
        let all = join(&self.choices, ",\n\t");
        Some(cat2("Choose from:\n\t", all.as_str()))
    }

    /// The choices that begin with what was typed (compared as matching compares).
    fn shell_complete(&self, incomplete: &str) -> (r: Vec<CompletionItem>)
        ensures
            r@.map_values(|c: CompletionItem| c.value@) == self.choices.deep_view().filter(
                |c: Seq<char>| seq_starts_with(self.norm(c), self.norm(incomplete@)),
            ),
            forall|k: int| 0 <= k < r@.len() ==> (#[trigger] r@[k]).completion_type@ == "plain"@ && r@[k].help is None,
    {
        let ni = self.normalize(incomplete);
        let ghost cs = self.choices.deep_view();
        let ghost pred = |c: Seq<char>| seq_starts_with(self.norm(c), self.norm(incomplete@));
        let mut out: Vec<CompletionItem> = Vec::new();
        let mut i: usize = 0;
        while i < self.choices.len()
            invariant
                i <= cs.len(),
                cs == self.choices.deep_view(),
                ni@ == self.norm(incomplete@),
                pred == (|c: Seq<char>| seq_starts_with(self.norm(c), self.norm(incomplete@))),
                out@.map_values(|c: CompletionItem| c.value@) =~= cs.take(i as int).filter(pred),
                forall|k: int| 0 <= k < out@.len() ==> (#[trigger] out@[k]).completion_type@ == "plain"@ && out@[k].help is None,
            decreases cs.len() - i,
        {
            let nc = self.normalize(self.choices[i].as_str());
            assert(self.choices@[i as int]@ == cs[i as int]);
            assert(cs.take(i + 1).drop_last() =~= cs.take(i as int));
            let ghost before = out@;
            if starts_with(nc.as_str(), ni.as_str()) {
                out.push(CompletionItem::new(self.choices[i].clone()));
                assert(out@.map_values(|c: CompletionItem| c.value@) =~= before.map_values(|c: CompletionItem| c.value@).push(cs[i as int]));
            }
            proof {
                reveal(Seq::filter);
                assert(cs.take(i + 1).last() == cs[i as int]);
            }
            i = i + 1;
        }
        assert(cs.take(cs.len() as int) =~= cs);
        out
    }
}

// =============================================================================
// Paths and files
// =============================================================================

/// A file system path, with the checks to make on it.
#[derive(Debug, Clone)]
pub struct PathType {
    pub exists: bool,
    pub file_okay: bool,
    pub dir_okay: bool,
    pub readable: bool,
    pub writable: bool,
    pub executable: bool,
    pub resolve_path: bool,
    /// `-` stands for standard input or output.
    pub allow_dash: bool,
}

impl PathType {
    /// Files and directories allowed, must be readable, need not exist.
    pub fn new() -> (r: Self)
        ensures
            !r.exists && r.file_okay && r.dir_okay && r.readable && !r.writable && !r.executable && !r.resolve_path
                && !r.allow_dash,
    {
        PathType {
            exists: false,
            file_okay: true,
            dir_okay: true,
            readable: true,
            writable: false,
            executable: false,
            resolve_path: false,
            allow_dash: false,
        }
    }

    /// Require the path to exist.
    pub fn must_exist(self, exists: bool) -> (r: Self)
        ensures
            r == (PathType { exists: exists, ..self }),
    {
        let mut s = self;
        s.exists = exists;
        s
    }

    pub fn file_okay(self, file_okay: bool) -> (r: Self)
        ensures
            r == (PathType { file_okay, ..self }),
    {
        let mut s = self;
        s.file_okay = file_okay;
        s
    }

    pub fn dir_okay(self, dir_okay: bool) -> (r: Self)
        ensures
            r == (PathType { dir_okay, ..self }),
    {
        let mut s = self;
        s.dir_okay = dir_okay;
        s
    }

    pub fn readable(self, readable: bool) -> (r: Self)
        ensures
            r == (PathType { readable, ..self }),
    {
        let mut s = self;
        s.readable = readable;
        s
    }

    pub fn writable(self, writable: bool) -> (r: Self)
        ensures
            r == (PathType { writable, ..self }),
    {
        let mut s = self;
        s.writable = writable;
        s
    }

    pub fn executable(self, executable: bool) -> (r: Self)
        ensures
            r == (PathType { executable, ..self }),
    {
        let mut s = self;
        s.executable = executable;
        s
    }

    pub fn resolve_path(self, resolve_path: bool) -> (r: Self)
        ensures
            r == (PathType { resolve_path, ..self }),
    {
        let mut s = self;
        s.resolve_path = resolve_path;
        s
    }

    pub fn allow_dash(self, allow_dash: bool) -> (r: Self)
        ensures
            r == (PathType { allow_dash, ..self }),
    {
        let mut s = self;
        s.allow_dash = allow_dash;
        s
    }

    pub open spec fn spec_name(self) -> Seq<char> {
        if self.file_okay && !self.dir_okay {
            "FILE"@
        } else if self.dir_okay && !self.file_okay {
            "DIRECTORY"@
        } else {
            "PATH"@
        }
    }

    /// The type's name: FILE, DIRECTORY or PATH.
    pub fn name(&self) -> (r: &str)
        ensures
            r@ == self.spec_name(),
    {
        if self.file_okay && !self.dir_okay {
            "FILE"
        } else if self.dir_okay && !self.file_okay {
            "DIRECTORY"
        } else {
            "PATH"
        }
    }

    /// Completion of a path: the text typed, completed as a directory or a file.
    pub fn shell_complete(&self, incomplete: &str) -> (r: Vec<CompletionItem>)
        ensures
            r@.len() == 1,
            r@[0].value@ == incomplete@,
            r@[0].completion_type@ == if self.dir_okay && !self.file_okay { "dir"@ } else { "file"@ },
    {
        let mut v: Vec<CompletionItem> = Vec::new();
        v.push(CompletionItem::with_type(incomplete, if self.dir_okay && !self.file_okay { "dir" } else { "file" }));
        v
    }
}

/// What the file system says of an existing path.
#[derive(Debug, Clone, Copy)]
pub struct PathFacts {
    pub is_file: bool,
    pub is_dir: bool,
    /// The permission bits.
    pub mode: u32,
}

impl PathType {
    /// The kind of path in messages: File, Directory or Path.
    pub open spec fn spec_kind_name(self) -> Seq<char> {
        if self.file_okay && !self.dir_okay {
            "File"@
        } else if self.dir_okay && !self.file_okay {
            "Directory"@
        } else {
            "Path"@
        }
    }

    pub fn kind_name(&self) -> (r: &str)
        ensures
            r@ == self.spec_kind_name(),
    {
        if self.file_okay && !self.dir_okay {
            "File"
        } else if self.dir_okay && !self.file_okay {
            "Directory"
        } else {
            "Path"
        }
    }

    /// What is decided before the file system is asked: no path at all is
    /// valid, or the value is `-`. `None` when the file system must be asked.
    pub open spec fn spec_precheck(self, value: Seq<char>) -> Option<Result<Seq<char>, Seq<char>>> {
        if !self.file_okay && !self.dir_okay {
            Some(Err("No path is valid (file_okay=false and dir_okay=false)"@))
        } else if value == "-"@ {
            if self.file_okay && self.allow_dash {
                Some(Ok("-"@))
            } else {
                Some(Err("'-' is not allowed"@))
            }
        } else {
            None
        }
    }

    /// The decision made before the file system is asked.
    pub fn precheck(&self, value: &str) -> (r: Option<Result<String, String>>)
        ensures
            match self.spec_precheck(value@) {
                None => r is None,
                Some(Ok(p)) => r matches Some(Ok(x)) && x@ == p,
                Some(Err(m)) => r matches Some(Err(x)) && x@ == m,
            },
    {
        if !self.file_okay && !self.dir_okay {
            return Some(Err(str_of("No path is valid (file_okay=false and dir_okay=false)")));
        }
        proof {
            reveal_strlit("-");
        }
        if str_eq(value, "-") {
            if self.file_okay && self.allow_dash {
                return Some(Ok(str_of("-")));
            }
            return Some(Err(str_of("'-' is not allowed")));
        }
        None
    }

    /// What a path is checked to, given what the file system says of it
    /// (`None`: it does not exist): refused when it must exist and does not,
    /// when it is a file or a directory and that kind is not allowed, or when a
    /// permission asked for is missing; else the path.
    pub open spec fn spec_check_found(self, value: Seq<char>, path: Seq<char>, facts: Option<PathFacts>) -> Result<
        Seq<char>,
        Seq<char>,
    > {
        let k = self.spec_kind_name();
        let q = " '"@ + value + "' "@;
        match facts {
            None => if self.exists {
                Err(k + q + "does not exist"@)
            } else {
                Ok(path)
            },
            Some(f) => if !self.file_okay && f.is_file {
                Err(k + q + "is a file"@)
            } else if !self.dir_okay && f.is_dir {
                Err(k + q + "is a directory"@)
            } else if self.readable && f.mode & 0o444 == 0 {
                Err(k + q + "is not readable"@)
            } else if self.writable && f.mode & 0o222 == 0 {
                Err(k + q + "is not writable"@)
            } else if self.executable && f.mode & 0o111 == 0 {
                Err(k + q + "is not executable"@)
            } else {
                Ok(path)
            },
        }
    }

    /// The check of a path against what the file system says of it.
    pub fn check_found(&self, value: &str, path: &str, facts: Option<PathFacts>) -> (r: Result<String, String>)
        ensures
            match self.spec_check_found(value@, path@, facts) {
                Ok(p) => r matches Ok(x) && x@ == p,
                Err(m) => r matches Err(x) && x@ == m,
            },
    {
        let k = self.kind_name();
        let msg = |what: &str| -> (m: String)
            ensures
                m@ == k@ + " '"@ + value@ + "' "@ + what@,
            { cat5(k, " '", value, "' ", what) };
        match facts {
            None => if self.exists {
                Err(msg("does not exist"))
            } else {
                Ok(str_of(path))
            },
            Some(f) => if !self.file_okay && f.is_file {
                Err(msg("is a file"))
            } else if !self.dir_okay && f.is_dir {
                Err(msg("is a directory"))
            } else if self.readable && f.mode & 0o444 == 0 {
                Err(msg("is not readable"))
            } else if self.writable && f.mode & 0o222 == 0 {
                Err(msg("is not writable"))
            } else if self.executable && f.mode & 0o111 == 0 {
                Err(msg("is not executable"))
            } else {
                Ok(str_of(path))
            },
        }
    }
}

/// The mode a file is opened in.
#[derive(Debug, Clone, Copy, PartialEq, Eq, Structural)]
pub enum FileMode {
    Read,
    Write,
    Append,
    ReadWrite,
}

impl FileMode {
    pub open spec fn spec_parse(s: Seq<char>) -> Option<FileMode> {
        if s == "r"@ || s == "rb"@ {
            Some(FileMode::Read)
        } else if s == "w"@ || s == "wb"@ {
            Some(FileMode::Write)
        } else if s == "a"@ || s == "ab"@ {
            Some(FileMode::Append)
        } else if s == "r+"@ || s == "rb+"@ || s == "r+b"@ || s == "w+"@ || s == "wb+"@ || s == "w+b"@ || s == "a+"@
            || s == "ab+"@ || s == "a+b"@ {
            Some(FileMode::ReadWrite)
        } else {
            None
        }
    }

    /// The mode an `open`-style mode string stands for.
    pub fn parse(s: &str) -> (r: Option<FileMode>)
        ensures
            r == Self::spec_parse(s@),
    {
        if str_eq(s, "r") || str_eq(s, "rb") {
            Some(FileMode::Read)
        } else if str_eq(s, "w") || str_eq(s, "wb") {
            Some(FileMode::Write)
        } else if str_eq(s, "a") || str_eq(s, "ab") {
            Some(FileMode::Append)
        } else if str_eq(s, "r+") || str_eq(s, "rb+") || str_eq(s, "r+b") || str_eq(s, "w+") || str_eq(s, "wb+")
            || str_eq(s, "w+b") || str_eq(s, "a+") || str_eq(s, "ab+") || str_eq(s, "a+b") {
            Some(FileMode::ReadWrite)
        } else {
            None
        }
    }

    pub fn is_read(&self) -> (r: bool)
        ensures
            r == (*self == FileMode::Read || *self == FileMode::ReadWrite),
    {
        match self {
            FileMode::Read => true,
            FileMode::ReadWrite => true,
            _ => false,
        }
    }

    pub fn is_write(&self) -> (r: bool)
        ensures
            r == (*self == FileMode::Write || *self == FileMode::Append || *self == FileMode::ReadWrite),
    {
        match self {
            FileMode::Read => false,
            _ => true,
        }
    }
}

/// A file to open, and how.
#[derive(Debug, Clone)]
pub struct FileType {
    pub mode: FileMode,
    /// Open only when first used; unset means: lazily when writing.
    pub lazy: Option<bool>,
    /// Write to a temporary file and move it in place when done.
    pub atomic: bool,
}

impl FileType {
    /// A file to read, opened at once.
    pub fn new() -> (r: Self)
        ensures
            r.mode == FileMode::Read && r.lazy is None && !r.atomic,
    {
        FileType { mode: FileMode::Read, lazy: None, atomic: false }
    }

    pub fn mode(self, mode: FileMode) -> (r: Self)
        ensures
            r == (FileType { mode, ..self }),
    {
        let mut s = self;
        s.mode = mode;
        s
    }

    pub fn lazy(self, lazy: bool) -> (r: Self)
        ensures
            r == (FileType { lazy: Some(lazy), ..self }),
    {
        let mut s = self;
        s.lazy = Some(lazy);
        s
    }

    pub fn atomic(self, atomic: bool) -> (r: Self)
        ensures
            r == (FileType { atomic, ..self }),
    {
        let mut s = self;
        s.atomic = atomic;
        s
    }

    /// Whether the file at `path` is opened only when first used: as set, else
    /// when writing, never for standard input or output.
    pub fn resolve_lazy(&self, path: &str) -> (r: bool)
        ensures
            r == match self.lazy {
                Some(l) => l,
                None => path@ != "-"@ && (self.mode == FileMode::Write || self.mode == FileMode::Append),
            },
    {
        match self.lazy {
            Some(l) => l,
            None => {
                if str_eq(path, "-") {
                    false
                } else {
                    match self.mode {
                        FileMode::Write => true,
                        FileMode::Append => true,
                        _ => false,
                    }
                }
            },
        }
    }
}

/// The type of one element of a tuple.
#[derive(Debug, Clone, Copy, PartialEq, Eq, Structural)]
pub enum TupleElementType {
    String,
    Int,
    Float,
    Bool,
}

/// Several values of different types taken together.
#[derive(Debug)]
pub struct TupleType {
    pub types: Vec<TupleElementType>,
}

/// The element type a name stands for (text when it is not known).
pub open spec fn element_type_of(name: Seq<char>) -> TupleElementType {
    if name == "string"@ || name == "str"@ || name == "text"@ {
        TupleElementType::String
    } else if name == "int"@ || name == "integer"@ {
        TupleElementType::Int
    } else if name == "float"@ {
        TupleElementType::Float
    } else if name == "bool"@ || name == "boolean"@ {
        TupleElementType::Bool
    } else {
        TupleElementType::String
    }
}

impl TupleType {
    /// A tuple of the named element types (names compared without case).
    pub fn new(types: &[&str]) -> (r: Self)
        ensures
            r.types@ == strs_view(types@).map_values(|n: Seq<char>| element_type_of(lower_of(n))),
    {
        let mut v: Vec<TupleElementType> = Vec::new();
        let ghost tv = strs_view(types@).map_values(|n: Seq<char>| element_type_of(lower_of(n)));
        let mut i: usize = 0;
        while i < types.len()
            invariant
                i <= types@.len(),
                tv == strs_view(types@).map_values(|n: Seq<char>| element_type_of(lower_of(n))),
                v@ =~= tv.take(i as int),
            decreases types@.len() - i,
        {
            let l = to_lower(types[i]);
            let s = l.as_str();
            let t = if str_eq(s, "string") || str_eq(s, "str") || str_eq(s, "text") {
                TupleElementType::String
            } else if str_eq(s, "int") || str_eq(s, "integer") {
                TupleElementType::Int
            } else if str_eq(s, "float") {
                TupleElementType::Float
            } else if str_eq(s, "bool") || str_eq(s, "boolean") {
                TupleElementType::Bool
            } else {
                TupleElementType::String
            };
            v.push(t);
            i = i + 1;
        }
        TupleType { types: v }
    }

    /// A tuple of `count` strings.
    pub fn strings(count: usize) -> (r: Self)
        ensures
            r.types@ == Seq::new(count as nat, |i: int| TupleElementType::String),
    {
        let mut v: Vec<TupleElementType> = Vec::new();
        let mut i: usize = 0;
        while i < count
            invariant
                i <= count,
                v@ =~= Seq::new(i as nat, |k: int| TupleElementType::String),
            decreases count - i,
        {
            v.push(TupleElementType::String);
            i = i + 1;
        }
        TupleType { types: v }
    }

    /// A tuple of `count` integers.
    pub fn ints(count: usize) -> (r: Self)
        ensures
            r.types@ == Seq::new(count as nat, |i: int| TupleElementType::Int),
    {
        let mut v: Vec<TupleElementType> = Vec::new();
        let mut i: usize = 0;
        while i < count
            invariant
                i <= count,
                v@ =~= Seq::new(i as nat, |k: int| TupleElementType::Int),
            decreases count - i,
        {
            v.push(TupleElementType::Int);
            i = i + 1;
        }
        TupleType { types: v }
    }
}

/// Whether an element of type `t` can be read from `v`.
pub open spec fn element_ok(t: TupleElementType, v: Seq<char>) -> bool {
    match t {
        TupleElementType::String => true,
        TupleElementType::Int => parse_i64_seq(v) is Some,
        TupleElementType::Float => float_literal(v),
        TupleElementType::Bool => bool_word(lower_of(trim_seq(v))) is Some,
    }
}

/// Whether `x` is the element of type `t` read from `v`.
pub open spec fn element_value(t: TupleElementType, v: Seq<char>, x: Value) -> bool {
    match t {
        TupleElementType::String => x matches Value::Str(y) && y@ == v,
        TupleElementType::Int => x == Value::Int(parse_i64_seq(v)->0),
        TupleElementType::Float => x matches Value::FloatText(y) && y@ == v,
        TupleElementType::Bool => x == Value::Bool(bool_word(lower_of(trim_seq(v)))->0),
    }
}

/// The message when `v` is not an element of type `t`.
pub open spec fn element_error(t: TupleElementType, v: Seq<char>) -> Seq<char> {
    "'"@ + v + match t {
        TupleElementType::Int => "' is not a valid integer"@,
        TupleElementType::Float => "' is not a valid float"@,
        _ => "' is not a valid boolean"@,
    }
}

/// What reading `v` as an element of type `t` gives.
pub open spec fn element_result(t: TupleElementType, v: Seq<char>, out: Result<Value, String>) -> bool {
    if element_ok(t, v) {
        out matches Ok(x) && element_value(t, v, x)
    } else {
        out matches Err(m) && m@ == element_error(t, v)
    }
}

/// What reading the values `vals` as a tuple of `types` gives: the count must
/// match, then each value is read in turn and the first that fails gives the
/// error.
pub open spec fn tuple_result(types: Seq<TupleElementType>, vals: Seq<Seq<char>>, out: Result<Vec<Value>, String>) -> bool {
    if vals.len() != types.len() {
        out matches Err(m) && m@ == dec_digits(types.len()) + " values are required, but "@ + dec_digits(
            vals.len(),
        ) + " were given"@
    } else if forall|k: int| 0 <= k < vals.len() ==> #[trigger] element_ok(types[k], vals[k]) {
        out matches Ok(items) && items@.len() == vals.len() && forall|k: int|
            0 <= k < vals.len() ==> #[trigger] element_value(types[k], vals[k], items@[k])
    } else {
        out matches Err(m) && exists|k: int|
            0 <= k < vals.len() && !#[trigger] element_ok(types[k], vals[k]) && (forall|j: int|
                0 <= j < k ==> element_ok(types[j], vals[j])) && m@ == element_error(types[k], vals[k])
    }
}

impl TupleType {
    /// Read one element: the value at position `index` of the tuple.
    pub fn convert_element(&self, index: usize, value: &str) -> (r: Result<Value, String>)
        ensures
            index < self.types@.len() ==> element_result(self.types@[index as int], value@, r),
            index >= self.types@.len() ==> (r matches Err(m) && m@ == "tuple index "@ + dec_digits(index as nat)
                + " out of bounds (arity "@ + dec_digits(self.types@.len()) + ")"@),
    {
        if index >= self.types.len() {
            let a = usize_to_string(index);
            let b = usize_to_string(self.types.len());
            return Err(cat5("tuple index ", a.as_str(), " out of bounds (arity ", b.as_str(), ")"));
        }
        match self.types[index] {
            TupleElementType::String => Ok(Value::Str(str_of(value))),
            TupleElementType::Int => match parse_i64(value) {
                Some(n) => Ok(Value::Int(n)),
                None => Err(cat3("'", value, "' is not a valid integer")),
            },
            TupleElementType::Float => if is_float_literal(value) {
                Ok(Value::FloatText(str_of(value)))
            } else {
                Err(cat3("'", value, "' is not a valid float"))
            },
            TupleElementType::Bool => match BoolType::str_to_bool(value) {
                Some(b) => Ok(Value::Bool(b)),
                None => Err(cat3("'", value, "' is not a valid boolean")),
            },
        }
    }

    fn convert_strings(&self, values: &Vec<String>) -> (r: Result<Vec<Value>, String>)
        ensures
            tuple_result(self.types@, values.deep_view(), r),
    {
        let ghost vals = values.deep_view();
        if values.len() != self.types.len() {
            let a = usize_to_string(self.types.len());
            let b = usize_to_string(values.len());
            return Err(cat4(a.as_str(), " values are required, but ", b.as_str(), " were given"));
        }
        let mut out: Vec<Value> = Vec::new();
        let mut i: usize = 0;
        while i < values.len()
            invariant
                i <= vals.len(),
                vals == values.deep_view(),
                vals.len() == self.types@.len(),
                out@.len() == i,
                forall|k: int| 0 <= k < i ==> #[trigger] element_ok(self.types@[k], vals[k]),
                forall|k: int| 0 <= k < i ==> #[trigger] element_value(self.types@[k], vals[k], out@[k]),
            decreases vals.len() - i,
        {
            assert(vals[i as int] == values@[i as int]@);
            match self.convert_element(i, values[i].as_str()) {
                Ok(x) => {
                    out.push(x);
                },
                Err(m) => {
                    assert(!element_ok(self.types@[i as int], vals[i as int]));
                    return Err(m);
                },
            }
            i = i + 1;
        }
        Ok(out)
    }

    /// Read already split values as a tuple.
    pub fn convert_values(&self, values: &[&str]) -> (r: Result<Vec<Value>, String>)
        ensures
            tuple_result(self.types@, strs_view(values@), r),
    {
        let v = strings_of(values);
        self.convert_strings(&v)
    }
}

/// The placeholder words of element types.
pub open spec fn element_metavars(types: Seq<TupleElementType>) -> Seq<Seq<char>> {
    types.map_values(|t: TupleElementType| element_metavar(t))
}

/// The placeholder word of an element type.
pub open spec fn element_metavar(t: TupleElementType) -> Seq<char> {
    match t {
        TupleElementType::String => "TEXT"@,
        TupleElementType::Int => "INTEGER"@,
        TupleElementType::Float => "FLOAT"@,
        TupleElementType::Bool => "BOOLEAN"@,
    }
}

impl TypeConverter for TupleType {
    open spec fn spec_completes(&self, incomplete: Seq<char>, r: Seq<CompletionItem>) -> bool {
        r.len() == 0
    }

    fn shell_complete(&self, incomplete: &str) -> (r: Vec<CompletionItem>) {
        Vec::new()
    }

    open spec fn spec_metavar(&self) -> Option<Seq<char>> {
        Some("<"@ + join_seq(element_metavars(self.types@), " "@) + ">"@)
    }

    open spec fn spec_name(&self) -> Seq<char> {
        "TUPLE"@
    }

    fn name(&self) -> (r: &str) {
        proof {
            reveal_strlit("TUPLE");
        }
        "TUPLE"
    }

    /// A single text is split at whitespace, then read as a tuple.
    open spec fn converts(&self, input: Seq<char>, out: Result<Value, String>) -> bool {
        exists|items: Result<Vec<Value>, String>|
            tuple_result(self.types@, words(input), items) && match items {
                Ok(v) => out == Result::<Value, String>::Ok(Value::List(v)),
                Err(m) => out == Result::<Value, String>::Err(m),
            }
    }

    fn convert(&self, value: &str) -> (r: Result<Value, String>)
    {
        let parts = split_whitespace(value);
        let res = self.convert_strings(&parts);
        match res {
            Ok(v) => {
                let r = Ok(Value::List(v));
                assert(self.converts(value@, r));
                r
            },
            Err(m) => {
                let r = Err(m);
                assert(self.converts(value@, r));
                r
            },
        }
    }

    fn get_metavar(&self) -> (r: Option<String>)
        ensures
            r matches Some(m) && m@ == "<"@ + join_seq(element_metavars(self.types@), " "@) + ">"@,
    {
        let mut names: Vec<String> = Vec::new();
        let mut i: usize = 0;
        while i < self.types.len()
            invariant
                i <= self.types@.len(),
                names.deep_view() =~= element_metavars(self.types@.take(i as int)),
            decreases self.types@.len() - i,
        {
            let w = match self.types[i] {
                TupleElementType::String => "TEXT",
                TupleElementType::Int => "INTEGER",
                TupleElementType::Float => "FLOAT",
                TupleElementType::Bool => "BOOLEAN",
            };
            proof {
                reveal_strlit("TEXT");
                reveal_strlit("INTEGER");
                reveal_strlit("FLOAT");
                reveal_strlit("BOOLEAN");
            }
            let ghost od = names.deep_view();
            names.push(str_of(w));
            assert(names.deep_view() =~= od.push(element_metavar(self.types@[i as int])));
            assert(element_metavars(self.types@.take(i + 1)) =~= element_metavars(self.types@.take(i as int)).push(
                element_metavar(self.types@[i as int]),
            ));
            i = i + 1;
        }
        assert(self.types@.take(self.types@.len() as int) =~= self.types@);
        let all = join(&names, " ");
        Some(cat3("<", all.as_str(), ">"))
    }

    fn is_composite(&self) -> (r: bool)
        ensures
            r,
    {
        true
    }

    fn arity(&self) -> (r: usize)
        ensures
            r == self.types@.len(),
    {
        self.types.len()
    }
}

} // verus!
