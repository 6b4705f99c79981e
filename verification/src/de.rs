//! The shape-directed deserializer: converts a value (sub)tree into a
//! strongly-typed result whose expected shape is described structurally by
//! a [`Shape`], attaching the full dotted path and, when known, the origin
//! of the offending node to every failure.
//!
//! The coercion table admits strings that read as booleans, integers or
//! floats; floats live in the tree and in results as opaque bit
//! patterns, so an integer node does not coerce to a float target (no
//! arithmetic can cross the divide here).

use vstd::prelude::*;
use vstd::string::StringExecFns;

use crate::value::{lookup, Kind, Node, NodeKind, Value, ValueKind};

verus! {

/// A named record field: looked up by `name`, or by `alias` when `name`
/// is absent, and deserialized against `shape`.
#[derive(Debug)]
pub struct Field {
    pub name: String,
    pub alias: Option<String>,
    pub shape: Shape,
}

/// One enum variant: its name and the shape of its payload.
#[derive(Debug)]
pub struct VariantDef {
    pub name: String,
    pub payload: VariantShape,
}

/// The payload shape of an enum variant.
#[derive(Debug)]
pub enum VariantShape {
    Unit,
    Newtype(Box<Shape>),
    Tuple(Vec<Shape>),
    Record(Vec<Field>),
}

/// The structurally-described shape of a deserialization target.
#[derive(Debug)]
pub enum Shape {
    Bool,
    Int,
    Float,
    Str,
    Optional(Box<Shape>),
    Sequence(Box<Shape>),
    Tuple(Vec<Shape>),
    Mapping(Box<Shape>),
    Record(Vec<Field>),
    Enum(String, Vec<VariantDef>),
}

/// A successfully deserialized value, mirroring the requested [`Shape`].
#[derive(Debug, PartialEq)]
pub enum Typed {
    Bool(bool),
    Int(i64),
    Float(u64),
    Str(String),
    OptNone,
    OptSome(Box<Typed>),
    List(Vec<Typed>),
    Tuple(Vec<Typed>),
    MapEntries(Vec<(String, Typed)>),
    Record(Vec<(String, Typed)>),
    Unit,
    Variant(String, Box<Typed>),
}

/// Spec-level model of a [`Typed`] value.
pub enum TypedV {
    Bool(bool),
    Int(int),
    Float(u64),
    Str(Seq<char>),
    OptNone,
    OptSome(Box<TypedV>),
    List(Seq<TypedV>),
    Tuple(Seq<TypedV>),
    MapEntries(Seq<(Seq<char>, TypedV)>),
    Record(Seq<(Seq<char>, TypedV)>),
    Unit,
    Variant(Seq<char>, Box<TypedV>),
}

pub open spec fn typed_view(t: Typed) -> TypedV
    decreases t,
{
    match t {
        Typed::Bool(b) => TypedV::Bool(b),
        Typed::Int(i) => TypedV::Int(i as int),
        Typed::Float(bits) => TypedV::Float(bits),
        Typed::Str(s) => TypedV::Str(s@),
        Typed::OptNone => TypedV::OptNone,
        Typed::OptSome(t) => TypedV::OptSome(Box::new(typed_view(*t))),
        Typed::List(ts) => TypedV::List(typed_seq_view(ts@)),
        Typed::Tuple(ts) => TypedV::Tuple(typed_seq_view(ts@)),
        Typed::MapEntries(es) => TypedV::MapEntries(typed_rows_view(es@)),
        Typed::Record(es) => TypedV::Record(typed_rows_view(es@)),
        Typed::Unit => TypedV::Unit,
        Typed::Variant(n, t) => TypedV::Variant(n@, Box::new(typed_view(*t))),
    }
}

pub open spec fn typed_seq_view(s: Seq<Typed>) -> Seq<TypedV>
    decreases s,
{
    if s.len() == 0 {
        Seq::empty()
    } else {
        seq![typed_view(s[0])] + typed_seq_view(s.drop_first())
    }
}

pub open spec fn typed_rows_view(s: Seq<(String, Typed)>) -> Seq<(Seq<char>, TypedV)>
    decreases s,
{
    if s.len() == 0 {
        Seq::empty()
    } else {
        seq![(s[0].0@, typed_view(s[0].1))] + typed_rows_view(s.drop_first())
    }
}

/// `typed_seq_view` maps the view pointwise.
pub proof fn lemma_typed_seq_view(s: Seq<Typed>)
    ensures
        typed_seq_view(s).len() == s.len(),
        forall|i: int| 0 <= i < s.len() ==> typed_seq_view(s)[i] == typed_view(s[i]),
    decreases s,
{
    if s.len() > 0 {
        lemma_typed_seq_view(s.drop_first());
    }
}

/// `typed_rows_view` maps the view pointwise.
pub proof fn lemma_typed_rows_view(s: Seq<(String, Typed)>)
    ensures
        typed_rows_view(s).len() == s.len(),
        forall|i: int|
            0 <= i < s.len() ==> typed_rows_view(s)[i] == (s[i].0@, typed_view(s[i].1)),
    decreases s,
{
    if s.len() > 0 {
        lemma_typed_rows_view(s.drop_first());
    }
}

/// Why a deserialization failed.
#[derive(Debug, PartialEq)]
pub enum DeErrorKind {
    /// The node's kind matched neither the target nor a coercion.
    /// `found_text` keeps the offending string when the node was a string.
    TypeMismatch { expected: Kind, found: Kind, found_text: Option<String> },
    /// A fixed-arity tuple target met an array of another length.
    ArityMismatch { expected: usize, found: usize },
    /// A required record field was absent from the table.
    MissingField { field: String },
    /// A string form named no variant of the target enum.
    NoSuchVariant { name: String, enum_name: String },
    /// The value's form cannot single out one variant of the target enum.
    AmbiguousEnumRepresentation { enum_name: String },
}

/// A located failure: what went wrong, the path segments from the root to
/// the offending node, and that node's origin when it has one.
#[derive(Debug, PartialEq)]
pub struct DeError {
    pub kind: DeErrorKind,
    pub path: Vec<String>,
    pub origin: Option<String>,
}

/// Spec-level model of [`DeErrorKind`].
pub enum ErrKindV {
    TypeMismatch { expected: Kind, found: Kind, found_text: Option<Seq<char>> },
    ArityMismatch { expected: int, found: int },
    MissingField { field: Seq<char> },
    NoSuchVariant { name: Seq<char>, enum_name: Seq<char> },
    AmbiguousEnumRepresentation { enum_name: Seq<char> },
}

/// Spec-level model of [`DeError`].
pub struct ErrV {
    pub kind: ErrKindV,
    pub path: Seq<Seq<char>>,
    pub origin: Option<Seq<char>>,
}

pub open spec fn err_kind_view(k: DeErrorKind) -> ErrKindV {
    match k {
        DeErrorKind::TypeMismatch { expected, found, found_text } => ErrKindV::TypeMismatch {
            expected,
            found,
            found_text: match found_text {
                Option::Some(s) => Option::Some(s@),
                Option::None => Option::None,
            },
        },
        DeErrorKind::ArityMismatch { expected, found } => ErrKindV::ArityMismatch {
            expected: expected as int,
            found: found as int,
        },
        DeErrorKind::MissingField { field } => ErrKindV::MissingField { field: field@ },
        DeErrorKind::NoSuchVariant { name, enum_name } => ErrKindV::NoSuchVariant {
            name: name@,
            enum_name: enum_name@,
        },
        DeErrorKind::AmbiguousEnumRepresentation { enum_name } => ErrKindV::AmbiguousEnumRepresentation {
            enum_name: enum_name@,
        },
    }
}

pub open spec fn path_view(p: Seq<String>) -> Seq<Seq<char>> {
    p.map_values(|s: String| s@)
}

pub open spec fn err_view(e: DeError) -> ErrV {
    ErrV {
        kind: err_kind_view(e.kind),
        path: path_view(e.path@),
        origin: crate::value::origin_view(e.origin),
    }
}

/// The spec-level digit character of `d`.
pub open spec fn digit_char(d: int) -> char {
    if d == 0 {
        '0'
    } else if d == 1 {
        '1'
    } else if d == 2 {
        '2'
    } else if d == 3 {
        '3'
    } else if d == 4 {
        '4'
    } else if d == 5 {
        '5'
    } else if d == 6 {
        '6'
    } else if d == 7 {
        '7'
    } else if d == 8 {
        '8'
    } else {
        '9'
    }
}

/// The decimal rendering of a nonnegative number.
pub open spec fn dec_str(n: nat) -> Seq<char>
    decreases n,
{
    if n < 10 {
        seq![digit_char(n as int)]
    } else {
        dec_str(n / 10) + seq![digit_char((n % 10) as int)]
    }
}

/// The digit `d` as a one-character string slice.
fn digit_str(d: usize) -> (r: &'static str)
    requires
        d < 10,
    ensures
        r@ == seq![digit_char(d as int)],
{
    if d == 0 {
        proof {
            reveal_strlit("0");
        }
        "0"
    } else if d == 1 {
        proof {
            reveal_strlit("1");
        }
        "1"
    } else if d == 2 {
        proof {
            reveal_strlit("2");
        }
        "2"
    } else if d == 3 {
        proof {
            reveal_strlit("3");
        }
        "3"
    } else if d == 4 {
        proof {
            reveal_strlit("4");
        }
        "4"
    } else if d == 5 {
        proof {
            reveal_strlit("5");
        }
        "5"
    } else if d == 6 {
        proof {
            reveal_strlit("6");
        }
        "6"
    } else if d == 7 {
        proof {
            reveal_strlit("7");
        }
        "7"
    } else if d == 8 {
        proof {
            reveal_strlit("8");
        }
        "8"
    } else {
        proof {
            reveal_strlit("9");
        }
        "9"
    }
}

/// Renders an index as its decimal digits, for paths through arrays.
pub fn usize_to_string(n: usize) -> (r: String)
    ensures
        r@ == dec_str(n as nat),
    decreases n,
{
    if n < 10 {
        String::from_str(digit_str(n))
    } else {
        let mut s = usize_to_string(n / 10);
        s.append(digit_str(n % 10));
        s
    }
}

/// The dotted rendering of a segment path: segments joined with `'.'`.
pub open spec fn dotted(path: Seq<Seq<char>>) -> Seq<char>
    decreases path,
{
    if path.len() == 0 {
        Seq::empty()
    } else if path.len() == 1 {
        path[0]
    } else {
        path[0] + seq!['.'] + dotted(path.drop_first())
    }
}

/// Appending one segment appends a dot (except to an empty path).
pub proof fn lemma_dotted_push(path: Seq<Seq<char>>, seg: Seq<char>)
    ensures
        dotted(path.push(seg)) == if path.len() == 0 {
            seg
        } else {
            dotted(path) + seq!['.'] + seg
        },
    decreases path,
{
    let p = path.push(seg);
    if path.len() == 0 {
        assert(p[0] == seg);
    } else {
        assert(p[0] == path[0]);
        assert(p.drop_first() =~= path.drop_first().push(seg));
        lemma_dotted_push(path.drop_first(), seg);
        if path.len() == 1 {
            assert(dotted(path) == path[0]);
            assert(dotted(p.drop_first()) == seg);
        } else {
            assert(path[0] + seq!['.'] + (dotted(path.drop_first()) + seq!['.'] + seg) =~= (
            path[0] + seq!['.'] + dotted(path.drop_first())) + seq!['.'] + seg);
        }
    }
}

/// ASCII lower-casing of one character; anything but a capital letter is
/// returned unchanged.
pub open spec fn lower_char(c: char) -> char {
    if c == 'A' {
        'a'
    } else if c == 'B' {
        'b'
    } else if c == 'C' {
        'c'
    } else if c == 'D' {
        'd'
    } else if c == 'E' {
        'e'
    } else if c == 'F' {
        'f'
    } else if c == 'G' {
        'g'
    } else if c == 'H' {
        'h'
    } else if c == 'I' {
        'i'
    } else if c == 'J' {
        'j'
    } else if c == 'K' {
        'k'
    } else if c == 'L' {
        'l'
    } else if c == 'M' {
        'm'
    } else if c == 'N' {
        'n'
    } else if c == 'O' {
        'o'
    } else if c == 'P' {
        'p'
    } else if c == 'Q' {
        'q'
    } else if c == 'R' {
        'r'
    } else if c == 'S' {
        's'
    } else if c == 'T' {
        't'
    } else if c == 'U' {
        'u'
    } else if c == 'V' {
        'v'
    } else if c == 'W' {
        'w'
    } else if c == 'X' {
        'x'
    } else if c == 'Y' {
        'y'
    } else if c == 'Z' {
        'z'
    } else {
        c
    }
}

pub open spec fn lower_str(s: Seq<char>) -> Seq<char> {
    s.map_values(|c: char| lower_char(c))
}

/// The boolean a string stands for, ASCII-case-insensitively:
/// `true`/`1`/`on`/`yes` and `false`/`0`/`off`/`no`.
pub open spec fn str_to_bool(s: Seq<char>) -> Option<bool> {
    let l = lower_str(s);
    if l == "true"@ || l == "1"@ || l == "on"@ || l == "yes"@ {
        Option::Some(true)
    } else if l == "false"@ || l == "0"@ || l == "off"@ || l == "no"@ {
        Option::Some(false)
    } else {
        Option::None
    }
}

pub open spec fn is_digit(c: char) -> bool {
    '0' <= c && c <= '9'
}

pub open spec fn digit_val(c: char) -> int {
    (c as u32) - 48
}

pub open spec fn all_digits(s: Seq<char>) -> bool {
    forall|i: int| 0 <= i < s.len() ==> is_digit(s[i])
}

/// Left-to-right decimal accumulation starting from `acc`.
pub open spec fn num_acc(s: Seq<char>, acc: int) -> int
    decreases s,
{
    if s.len() == 0 {
        acc
    } else {
        num_acc(s.drop_first(), acc * 10 + digit_val(s[0]))
    }
}

/// The integer a string stands for: an optional `-` sign followed by at
/// least one decimal digit; nothing else parses.
pub open spec fn str_to_int(s: Seq<char>) -> Option<int> {
    if s.len() >= 1 && s[0] == '-' {
        let rest = s.drop_first();
        if rest.len() >= 1 && all_digits(rest) {
            Option::Some(-num_acc(rest, 0))
        } else {
            Option::None
        }
    } else if s.len() >= 1 && all_digits(s) {
        Option::Some(num_acc(s, 0))
    } else {
        Option::None
    }
}

/// Decimal accumulation never shrinks below where it starts.
pub proof fn lemma_num_acc_lower(s: Seq<char>, acc: int)
    requires
        all_digits(s),
        acc >= 0,
    ensures
        num_acc(s, acc) >= acc,
    decreases s,
{
    if s.len() > 0 {
        assert(is_digit(s[0]));
        assert(forall|i: int|
            0 <= i < s.drop_first().len() ==> s.drop_first()[i] == s[i + 1] && is_digit(
                s[i + 1],
            ));
        lemma_num_acc_lower(s.drop_first(), acc * 10 + digit_val(s[0]));
    }
}

/// The bit pattern of the float a numeric-looking string stands for.
pub uninterp spec fn float_bits_of(s: Seq<char>) -> Option<u64>;

/// Relies on ron::from_str::<ron::Value> and ron::Number::into_f64: a
/// string that reads as a number under RON's numeric grammar becomes
/// that number (integer forms are widened); the result depends on the
/// characters alone and is carried as its raw bit pattern.
#[verifier::external_body]
pub fn parse_float_bits(s: &str) -> (r: Option<u64>)
    ensures
        r == float_bits_of(s@),
{
    match ron::from_str::<ron::Value>(s) {
        Result::Ok(ron::Value::Number(n)) => Option::Some(n.into_f64().to_bits()),
        _ => Option::None,
    }
}

/// The float coercion table: exact floats pass their bits through, and
/// strings coerce through the named result of std's float parser;
/// nothing else coerces (in particular integers do not, since no
/// arithmetic can cross the integer/float divide here).
pub open spec fn float_from_node(k: NodeKind) -> Option<u64> {
    match k {
        NodeKind::Float(bits) => Option::Some(bits),
        NodeKind::Str(s) => float_bits_of(s),
        _ => Option::None,
    }
}

/// The boolean coercion table: exact booleans, or strings through
/// [`str_to_bool`]; nothing else coerces.
pub open spec fn bool_from_node(k: NodeKind) -> Option<bool> {
    match k {
        NodeKind::Boolean(b) => Option::Some(b),
        NodeKind::Str(s) => str_to_bool(s),
        _ => Option::None,
    }
}

/// The integer coercion table: exact integers, or strings through
/// [`str_to_int`] when the value fits a 64-bit signed integer.
pub open spec fn int_from_node(k: NodeKind) -> Option<int> {
    match k {
        NodeKind::Integer(i) => Option::Some(i),
        NodeKind::Str(s) => match str_to_int(s) {
            Option::Some(n) => if -9223372036854775808 <= n <= 9223372036854775807 {
                Option::Some(n)
            } else {
                Option::None
            },
            Option::None => Option::None,
        },
        _ => Option::None,
    }
}

/// ASCII lower-casing of one character, the executable twin of
/// [`lower_char`].
fn lower_char_x(c: char) -> (r: char)
    ensures
        r == lower_char(c),
{
    if c >= 'A' && c <= 'Z' {
        if c == 'A' { 'a' } else if c == 'B' { 'b' } else if c == 'C' { 'c' }
        else if c == 'D' { 'd' } else if c == 'E' { 'e' } else if c == 'F' { 'f' }
        else if c == 'G' { 'g' } else if c == 'H' { 'h' } else if c == 'I' { 'i' }
        else if c == 'J' { 'j' } else if c == 'K' { 'k' } else if c == 'L' { 'l' }
        else if c == 'M' { 'm' } else if c == 'N' { 'n' } else if c == 'O' { 'o' }
        else if c == 'P' { 'p' } else if c == 'Q' { 'q' } else if c == 'R' { 'r' }
        else if c == 'S' { 's' } else if c == 'T' { 't' } else if c == 'U' { 'u' }
        else if c == 'V' { 'v' } else if c == 'W' { 'w' } else if c == 'X' { 'x' }
        else if c == 'Y' { 'y' } else { 'z' }
    } else {
        c
    }
}

/// Whether `s` lower-cases to exactly the (already lower-case) `t`.
fn eq_folded(s: &str, t: &str) -> (b: bool)
    ensures
        b == (lower_str(s@) == t@),
{
    let n = s.unicode_len();
    if n != t.unicode_len() {
        proof {
            assert(lower_str(s@).len() == s@.len());
        }
        return false;
    }
    let mut i: usize = 0;
    while i < n
        invariant
            n == s@.len(),
            n == t@.len(),
            i <= n,
            forall|j: int| 0 <= j < i ==> lower_str(s@)[j] == t@[j],
        decreases n - i,
    {
        if lower_char_x(s.get_char(i)) != t.get_char(i) {
            proof {
                assert(lower_str(s@)[i as int] != t@[i as int]);
            }
            return false;
        }
        i = i + 1;
    }
    proof {
        assert(lower_str(s@) =~= t@);
    }
    true
}

/// The executable boolean coercion from a string.
pub fn parse_bool_str(s: &str) -> (r: Option<bool>)
    ensures
        r == str_to_bool(s@),
{
    if eq_folded(s, "true") || eq_folded(s, "1") || eq_folded(s, "on") || eq_folded(s, "yes") {
        Option::Some(true)
    } else if eq_folded(s, "false") || eq_folded(s, "0") || eq_folded(s, "off") || eq_folded(
        s,
        "no",
    ) {
        Option::Some(false)
    } else {
        Option::None
    }
}

/// The executable integer coercion from a string: succeeds exactly when
/// [`str_to_int`] gives a value that fits an `i64`.
pub fn parse_i64_str(s: &str) -> (r: Option<i64>)
    ensures
        match r {
            Option::Some(i) => str_to_int(s@) == Option::Some(i as int),
            Option::None => match str_to_int(s@) {
                Option::Some(n) => n < -9223372036854775808 || n > 9223372036854775807,
                Option::None => true,
            },
        },
{
    let n = s.unicode_len();
    if n == 0 {
        return Option::None;
    }
    let neg = s.get_char(0) == '-';
    let start: usize = if neg {
        1
    } else {
        0
    };
    if start >= n {
        return Option::None;
    }
    let ghost digits = if neg {
        s@.drop_first()
    } else {
        s@
    };
    let mut acc: u128 = 0;
    let mut i: usize = start;
    proof {
        assert(digits.skip(0) =~= digits);
    }
    while i < n
        invariant
            n == s@.len(),
            start <= i <= n,
            start == if neg { 1int } else { 0int },
            neg <==> s@[0] == '-',
            digits == if neg { s@.drop_first() } else { s@ },
            digits.len() == n - start,
            0 <= acc <= 9223372036854775808,
            forall|j: int| 0 <= j < i - start ==> is_digit(digits[j]),
            num_acc(digits, 0) == num_acc(digits.skip(i - start), acc as int),
        decreases n - i,
    {
        let c = s.get_char(i);
        if !(c >= '0' && c <= '9') {
            proof {
                assert(!is_digit(digits[i - start]));
            }
            return Option::None;
        }
        let d: u128 = (c as u32) as u128 - 48;
        proof {
            let rest = digits.skip(i - start);
            assert(rest[0] == digits[i - start]);
            assert(rest.drop_first() =~= digits.skip(i - start + 1));
        }
        acc = acc * 10 + d;
        i = i + 1;
        if acc > 9223372036854775808 {
            proof {
                if all_digits(digits) {
                    lemma_num_acc_lower(digits.skip(i - start), acc as int);
                }
            }
            return Option::None;
        }
    }
    proof {
        assert(digits.skip(n - start) =~= Seq::<char>::empty());
        assert(forall|j: int| 0 <= j < digits.len() ==> is_digit(digits[j]));
        assert(num_acc(digits, 0) == acc as int);
    }
    if neg {
        if acc == 9223372036854775808 {
            Option::Some(i64::MIN)
        } else {
            Option::Some(-(acc as i64))
        }
    } else {
        if acc <= 9223372036854775807 {
            Option::Some(acc as i64)
        } else {
            Option::None
        }
    }
}

/// The first variant with this name, if any.
pub open spec fn find_variant(vs: Seq<VariantDef>, name: Seq<char>) -> Option<VariantDef>
    decreases vs,
{
    if vs.len() == 0 {
        Option::None
    } else if vs[0].name@ == name {
        Option::Some(vs[0])
    } else {
        find_variant(vs.drop_first(), name)
    }
}

/// The index of the first entry with key `k` (its length when absent).
pub open spec fn lookup_idx(rows: Seq<(Seq<char>, Node)>, k: Seq<char>) -> int
    decreases rows,
{
    if rows.len() == 0 {
        0
    } else if rows[0].0 == k {
        0
    } else {
        1 + lookup_idx(rows.drop_first(), k)
    }
}

/// A successful lookup returns the entry at `lookup_idx`.
pub proof fn lemma_lookup_idx(rows: Seq<(Seq<char>, Node)>, k: Seq<char>)
    requires
        lookup(rows, k) is Some,
    ensures
        0 <= lookup_idx(rows, k) < rows.len(),
        rows[lookup_idx(rows, k)].0 == k,
        lookup(rows, k) == Option::Some(rows[lookup_idx(rows, k)].1),
    decreases rows,
{
    if rows.len() > 0 && rows[0].0 != k {
        lemma_lookup_idx(rows.drop_first(), k);
    }
}

/// A type-mismatch error for node `v` at `path`, expecting `expected`.
pub open spec fn type_err(expected: Kind, v: Node, path: Seq<Seq<char>>) -> ErrV {
    ErrV {
        kind: ErrKindV::TypeMismatch {
            expected,
            found: crate::value::node_kind_of(v.kind),
            found_text: match v.kind {
                NodeKind::Str(s) => Option::Some(s),
                _ => Option::None,
            },
        },
        path,
        origin: v.origin,
    }
}

/// What deserializing node `v` against shape `s` at `path` yields: the
/// typed value, or the located error, exactly as section-by-section rules
/// prescribe (primitives with coercions, optionals, sequences, fixed
/// tuples, homogeneous mappings, records with aliases, and enums resolved
/// from a string or a single-key table).
pub open spec fn de(v: Node, s: Shape, path: Seq<Seq<char>>) -> Result<TypedV, ErrV>
    decreases v, 1int, s,
{
    match s {
        Shape::Bool => match bool_from_node(v.kind) {
            Option::Some(b) => Result::Ok(TypedV::Bool(b)),
            Option::None => Result::Err(type_err(Kind::Boolean, v, path)),
        },
        Shape::Int => match int_from_node(v.kind) {
            Option::Some(n) => Result::Ok(TypedV::Int(n)),
            Option::None => Result::Err(type_err(Kind::Integer, v, path)),
        },
        Shape::Float => match float_from_node(v.kind) {
            Option::Some(bits) => Result::Ok(TypedV::Float(bits)),
            Option::None => Result::Err(type_err(Kind::Float, v, path)),
        },
        Shape::Str => match v.kind {
            NodeKind::Str(t) => Result::Ok(TypedV::Str(t)),
            _ => Result::Err(type_err(Kind::Str, v, path)),
        },
        Shape::Optional(inner) => if v.kind is Nil {
            Result::Ok(TypedV::OptNone)
        } else {
            match de(v, *inner, path) {
                Result::Ok(t) => Result::Ok(TypedV::OptSome(Box::new(t))),
                Result::Err(e) => Result::Err(e),
            }
        },
        Shape::Sequence(inner) => match v.kind {
            NodeKind::Array(elems) => match de_elems(elems, *inner, path, 0) {
                Result::Ok(ts) => Result::Ok(TypedV::List(ts)),
                Result::Err(e) => Result::Err(e),
            },
            _ => Result::Err(type_err(Kind::Array, v, path)),
        },
        Shape::Tuple(shapes) => match v.kind {
            NodeKind::Array(elems) => if elems.len() == shapes@.len() {
                match de_tuple(elems, shapes@, path, 0) {
                    Result::Ok(ts) => Result::Ok(TypedV::Tuple(ts)),
                    Result::Err(e) => Result::Err(e),
                }
            } else {
                Result::Err(ErrV {
                    kind: ErrKindV::ArityMismatch {
                        expected: shapes@.len() as int,
                        found: elems.len() as int,
                    },
                    path,
                    origin: v.origin,
                })
            },
            _ => Result::Err(type_err(Kind::Array, v, path)),
        },
        Shape::Mapping(inner) => match v.kind {
            NodeKind::Table(rows) => match de_entries(rows, *inner, path) {
                Result::Ok(es) => Result::Ok(TypedV::MapEntries(es)),
                Result::Err(e) => Result::Err(e),
            },
            _ => Result::Err(type_err(Kind::Table, v, path)),
        },
        Shape::Record(fields) => match v.kind {
            NodeKind::Table(rows) => match de_fields(fields@, rows, v.origin, path) {
                Result::Ok(es) => Result::Ok(TypedV::Record(es)),
                Result::Err(e) => Result::Err(e),
            },
            _ => Result::Err(type_err(Kind::Table, v, path)),
        },
        Shape::Enum(ename, variants) => de_enum(v, ename@, variants@, path),
    }
}

/// Enum resolution: a string selects a unit variant by exact name; a
/// table must have exactly one key, which selects the variant whose
/// payload the table's single value then feeds; an array can never single
/// out a variant; anything else is a type mismatch.
pub open spec fn de_enum(
    v: Node,
    ename: Seq<char>,
    variants: Seq<VariantDef>,
    path: Seq<Seq<char>>,
) -> Result<TypedV, ErrV>
    decreases v, 0int,
{
    match v.kind {
        NodeKind::Str(s) => match find_variant(variants, s) {
            Option::Some(var) => match var.payload {
                VariantShape::Unit => Result::Ok(
                    TypedV::Variant(s, Box::new(TypedV::Unit)),
                ),
                _ => Result::Err(type_err(Kind::Table, v, path)),
            },
            Option::None => Result::Err(ErrV {
                kind: ErrKindV::NoSuchVariant { name: s, enum_name: ename },
                path,
                origin: v.origin,
            }),
        },
        NodeKind::Array(_) => Result::Err(ErrV {
            kind: ErrKindV::AmbiguousEnumRepresentation { enum_name: ename },
            path,
            origin: v.origin,
        }),
        NodeKind::Table(rows) => if rows.len() != 1 {
            Result::Err(ErrV {
                kind: ErrKindV::AmbiguousEnumRepresentation { enum_name: ename },
                path,
                origin: v.origin,
            })
        } else {
            let key = rows[0].0;
            let pv = rows[0].1;
            match find_variant(variants, key) {
                Option::None => Result::Err(ErrV {
                    kind: ErrKindV::NoSuchVariant { name: key, enum_name: ename },
                    path,
                    origin: v.origin,
                }),
                Option::Some(var) => match de_payload(pv, var.payload, path.push(key)) {
                    Result::Ok(t) => Result::Ok(TypedV::Variant(key, Box::new(t))),
                    Result::Err(e) => Result::Err(e),
                },
            }
        },
        _ => Result::Err(type_err(Kind::Table, v, path)),
    }
}

/// A variant payload deserialized from the value under the variant key.
pub open spec fn de_payload(
    pv: Node,
    payload: VariantShape,
    path: Seq<Seq<char>>,
) -> Result<TypedV, ErrV>
    decreases pv, 1int, payload,
{
    match payload {
        VariantShape::Unit => if pv.kind is Nil {
            Result::Ok(TypedV::Unit)
        } else {
            Result::Err(type_err(Kind::Nil, pv, path))
        },
        VariantShape::Newtype(inner) => de(pv, *inner, path),
        VariantShape::Tuple(shapes) => match pv.kind {
            NodeKind::Array(elems) => if elems.len() == shapes@.len() {
                match de_tuple(elems, shapes@, path, 0) {
                    Result::Ok(ts) => Result::Ok(TypedV::Tuple(ts)),
                    Result::Err(e) => Result::Err(e),
                }
            } else {
                Result::Err(ErrV {
                    kind: ErrKindV::ArityMismatch {
                        expected: shapes@.len() as int,
                        found: elems.len() as int,
                    },
                    path,
                    origin: pv.origin,
                })
            },
            _ => Result::Err(type_err(Kind::Array, pv, path)),
        },
        VariantShape::Record(fields) => match pv.kind {
            NodeKind::Table(rows) => match de_fields(fields@, rows, pv.origin, path) {
                Result::Ok(es) => Result::Ok(TypedV::Record(es)),
                Result::Err(e) => Result::Err(e),
            },
            _ => Result::Err(type_err(Kind::Table, pv, path)),
        },
    }
}

/// Array elements deserialized one by one against a single inner shape,
/// each at `path.index`; the first failure wins.
pub open spec fn de_elems(
    elems: Seq<Node>,
    inner: Shape,
    path: Seq<Seq<char>>,
    idx: nat,
) -> Result<Seq<TypedV>, ErrV>
    decreases elems,
{
    if elems.len() == 0 {
        Result::Ok(Seq::empty())
    } else {
        match de(elems[0], inner, path.push(dec_str(idx))) {
            Result::Ok(t) => match de_elems(elems.drop_first(), inner, path, idx + 1) {
                Result::Ok(ts) => Result::Ok(seq![t] + ts),
                Result::Err(e) => Result::Err(e),
            },
            Result::Err(e) => Result::Err(e),
        }
    }
}

/// Tuple elements deserialized pairwise against the tuple's shapes.
pub open spec fn de_tuple(
    elems: Seq<Node>,
    shapes: Seq<Shape>,
    path: Seq<Seq<char>>,
    idx: nat,
) -> Result<Seq<TypedV>, ErrV>
    decreases elems,
{
    if elems.len() == 0 || shapes.len() == 0 {
        Result::Ok(Seq::empty())
    } else {
        match de(elems[0], shapes[0], path.push(dec_str(idx))) {
            Result::Ok(t) => match de_tuple(
                elems.drop_first(),
                shapes.drop_first(),
                path,
                idx + 1,
            ) {
                Result::Ok(ts) => Result::Ok(seq![t] + ts),
                Result::Err(e) => Result::Err(e),
            },
            Result::Err(e) => Result::Err(e),
        }
    }
}

/// Every table entry deserialized against one inner shape, each at
/// `path.key`, keys kept in table order.
pub open spec fn de_entries(
    entries: Seq<(Seq<char>, Node)>,
    inner: Shape,
    path: Seq<Seq<char>>,
) -> Result<Seq<(Seq<char>, TypedV)>, ErrV>
    decreases entries,
{
    if entries.len() == 0 {
        Result::Ok(Seq::empty())
    } else {
        match de(entries[0].1, inner, path.push(entries[0].0)) {
            Result::Ok(t) => match de_entries(entries.drop_first(), inner, path) {
                Result::Ok(es) => Result::Ok(seq![(entries[0].0, t)] + es),
                Result::Err(e) => Result::Err(e),
            },
            Result::Err(e) => Result::Err(e),
        }
    }
}

/// Record fields in declaration order: each is looked up by name, then by
/// alias, and deserialized at `path.name`. An absent field of optional
/// shape comes back as `None`; any other absent field is a
/// `MissingField` carrying the table's origin. Extra keys are ignored.
pub open spec fn de_fields(
    fields: Seq<Field>,
    rows: Seq<(Seq<char>, Node)>,
    table_origin: Option<Seq<char>>,
    path: Seq<Seq<char>>,
) -> Result<Seq<(Seq<char>, TypedV)>, ErrV>
    decreases rows, 1int, fields,
    via de_fields_dec
{
    if fields.len() == 0 {
        Result::Ok(Seq::empty())
    } else {
        let f = fields[0];
        let fv = match lookup(rows, f.name@) {
            Option::Some(n) => Option::Some(n),
            Option::None => match f.alias {
                Option::Some(al) => lookup(rows, al@),
                Option::None => Option::None,
            },
        };
        match fv {
            Option::Some(n) => match de(n, f.shape, path.push(f.name@)) {
                Result::Ok(t) => match de_fields(
                    fields.drop_first(),
                    rows,
                    table_origin,
                    path,
                ) {
                    Result::Ok(es) => Result::Ok(seq![(f.name@, t)] + es),
                    Result::Err(e) => Result::Err(e),
                },
                Result::Err(e) => Result::Err(e),
            },
            Option::None => match f.shape {
                Shape::Optional(_) => match de_fields(
                    fields.drop_first(),
                    rows,
                    table_origin,
                    path,
                ) {
                    Result::Ok(es) => Result::Ok(seq![(f.name@, TypedV::OptNone)] + es),
                    Result::Err(e) => Result::Err(e),
                },
                _ => Result::Err(ErrV {
                    kind: ErrKindV::MissingField { field: f.name@ },
                    path,
                    origin: table_origin,
                }),
            },
        }
    }
}

#[via_fn]
proof fn de_fields_dec(
    fields: Seq<Field>,
    rows: Seq<(Seq<char>, Node)>,
    table_origin: Option<Seq<char>>,
    path: Seq<Seq<char>>,
) {
    if fields.len() > 0 {
        let f = fields[0];
        if lookup(rows, f.name@) is Some {
            lemma_lookup_idx(rows, f.name@);
        } else {
            match f.alias {
                Option::Some(al) => {
                    if lookup(rows, al@) is Some {
                        lemma_lookup_idx(rows, al@);
                    }
                },
                Option::None => {},
            }
        }
    }
}

impl Value {
    /// The boolean this node narrows to under the coercion table.
    pub fn as_bool(&self) -> (r: Option<bool>)
        ensures
            r == bool_from_node(self@.kind),
    {
        match &self.kind {
            ValueKind::Boolean(b) => Option::Some(*b),
            ValueKind::Str(s) => parse_bool_str(s.as_str()),
            _ => Option::None,
        }
    }

    /// The 64-bit integer this node narrows to under the coercion table.
    pub fn as_i64(&self) -> (r: Option<i64>)
        ensures
            match r {
                Option::Some(i) => int_from_node(self@.kind) == Option::Some(i as int),
                Option::None => int_from_node(self@.kind) is None,
            },
    {
        match &self.kind {
            ValueKind::Integer(i) => Option::Some(*i),
            ValueKind::Str(s) => parse_i64_str(s.as_str()),
            _ => Option::None,
        }
    }

    /// The raw bit pattern of the float this node narrows to under the
    /// coercion table; the number itself is reinterpreted outside the
    /// verified core.
    pub fn as_float_bits(&self) -> (r: Option<u64>)
        ensures
            r == float_from_node(self@.kind),
    {
        match &self.kind {
            ValueKind::Float(bits) => Option::Some(*bits),
            ValueKind::Str(s) => parse_float_bits(s.as_str()),
            _ => Option::None,
        }
    }

    /// The string this node holds, when it is one; no other kind
    /// stringifies.
    pub fn as_str(&self) -> (r: Option<&String>)
        ensures
            match r {
                Option::Some(s) => self@.kind == NodeKind::Str(s@),
                Option::None => !(self@.kind is Str),
            },
    {
        match &self.kind {
            ValueKind::Str(s) => Option::Some(s),
            _ => Option::None,
        }
    }

    /// The element list, when this node is an array; no coercion widens
    /// another kind.
    pub fn as_array(&self) -> (r: Option<&Vec<Value>>)
        ensures
            match r {
                Option::Some(vs) => self@.kind == NodeKind::Array(
                    crate::value::array_view(vs@),
                ),
                Option::None => !(self@.kind is Array),
            },
    {
        match &self.kind {
            ValueKind::Array(vs) => Option::Some(vs),
            _ => Option::None,
        }
    }

    /// The entry list, when this node is a table; no coercion widens
    /// another kind.
    pub fn as_table(&self) -> (r: Option<&Vec<(String, Value)>>)
        ensures
            match r {
                Option::Some(rows) => self@.kind == NodeKind::Table(
                    crate::value::rows_view(rows@),
                ),
                Option::None => !(self@.kind is Table),
            },
    {
        match &self.kind {
            ValueKind::Table(rows) => Option::Some(rows),
            _ => Option::None,
        }
    }
}

/// A copy of the path whose view is unchanged.
fn clone_path(p: &Vec<String>) -> (r: Vec<String>)
    ensures
        path_view(r@) == path_view(p@),
{
    let mut out: Vec<String> = Vec::new();
    let mut i: usize = 0;
    while i < p.len()
        invariant
            i <= p@.len(),
            out@.len() == i,
            forall|j: int| 0 <= j < i ==> out@[j]@ == p@[j]@,
        decreases p@.len() - i,
    {
        out.push(p[i].clone());
        i = i + 1;
    }
    proof {
        assert(path_view(out@) =~= path_view(p@));
    }
    out
}

/// A copy of an origin whose view is unchanged.
fn clone_origin(o: &Option<String>) -> (r: Option<String>)
    ensures
        crate::value::origin_view(r) == crate::value::origin_view(*o),
{
    match o {
        Option::Some(s) => Option::Some(s.clone()),
        Option::None => Option::None,
    }
}

/// Builds the type-mismatch error for node `v` at the current path.
fn mk_type_err(expected: Kind, v: &Value, path: &Vec<String>) -> (e: DeError)
    ensures
        err_view(e) == type_err(expected, v@, path_view(path@)),
{
    let found = v.kind_of();
    let found_text: Option<String> = match &v.kind {
        ValueKind::Str(s) => Option::Some(s.clone()),
        _ => Option::None,
    };
    DeError {
        kind: DeErrorKind::TypeMismatch { expected, found, found_text },
        path: clone_path(path),
        origin: clone_origin(&v.origin),
    }
}

/// Finds the first variant with this name.
fn find_variant_x<'a>(vs: &'a Vec<VariantDef>, name: &String) -> (r: Option<&'a VariantDef>)
    ensures
        match r {
            Option::Some(var) => find_variant(vs@, name@) == Option::Some(*var),
            Option::None => find_variant(vs@, name@) is None,
        },
{
    let mut i: usize = 0;
    proof {
        assert(vs@.skip(0) =~= vs@);
    }
    while i < vs.len()
        invariant
            i <= vs@.len(),
            find_variant(vs@, name@) == find_variant(vs@.skip(i as int), name@),
        decreases vs@.len() - i,
    {
        proof {
            assert(vs@.skip(i as int)[0] == vs@[i as int]);
            assert(vs@.skip(i as int).drop_first() =~= vs@.skip(i as int + 1));
        }
        if vs[i].name == *name {
            return Option::Some(&vs[i]);
        }
        i = i + 1;
    }
    proof {
        assert(vs@.skip(vs@.len() as int) =~= Seq::<VariantDef>::empty());
    }
    Option::None
}

/// Deserializes the (sub)tree `v` against `shape`; `path` names where `v`
/// sits in the whole document and is handed back unchanged. On failure
/// the error carries the dotted path of the offending node and, when that
/// node has one, its origin.
#[verifier::rlimit(100)]
#[verifier::loop_isolation(false)]
pub fn deserialize(v: &Value, shape: &Shape, path: &mut Vec<String>) -> (r: Result<
    Typed,
    DeError,
>)
    ensures
        final(path)@ == old(path)@,
        match r {
            Result::Ok(t) => de(v@, *shape, path_view(old(path)@)) == Result::Ok::<
                TypedV,
                ErrV,
            >(typed_view(t)),
            Result::Err(e) => de(v@, *shape, path_view(old(path)@)) == Result::Err::<
                TypedV,
                ErrV,
            >(err_view(e)),
        },
    decreases v@, 1int, *shape,
{
    match shape {
        Shape::Bool => match &v.kind {
            ValueKind::Boolean(b) => Result::Ok(Typed::Bool(*b)),
            ValueKind::Str(s) => match parse_bool_str(s.as_str()) {
                Option::Some(b) => Result::Ok(Typed::Bool(b)),
                Option::None => Result::Err(mk_type_err(Kind::Boolean, v, path)),
            },
            _ => Result::Err(mk_type_err(Kind::Boolean, v, path)),
        },
        Shape::Int => match &v.kind {
            ValueKind::Integer(i) => Result::Ok(Typed::Int(*i)),
            ValueKind::Str(s) => match parse_i64_str(s.as_str()) {
                Option::Some(i) => Result::Ok(Typed::Int(i)),
                Option::None => Result::Err(mk_type_err(Kind::Integer, v, path)),
            },
            _ => Result::Err(mk_type_err(Kind::Integer, v, path)),
        },
        Shape::Float => match &v.kind {
            ValueKind::Float(bits) => Result::Ok(Typed::Float(*bits)),
            ValueKind::Str(s) => match parse_float_bits(s.as_str()) {
                Option::Some(bits) => Result::Ok(Typed::Float(bits)),
                Option::None => Result::Err(mk_type_err(Kind::Float, v, path)),
            },
            _ => Result::Err(mk_type_err(Kind::Float, v, path)),
        },
        Shape::Str => match &v.kind {
            ValueKind::Str(s) => Result::Ok(Typed::Str(s.clone())),
            _ => Result::Err(mk_type_err(Kind::Str, v, path)),
        },
        Shape::Optional(inner) => match &v.kind {
            ValueKind::Nil => Result::Ok(Typed::OptNone),
            _ => match deserialize(v, inner, path) {
                Result::Ok(t) => Result::Ok(Typed::OptSome(Box::new(t))),
                Result::Err(e) => Result::Err(e),
            },
        },
        Shape::Sequence(inner) => match &v.kind {
            ValueKind::Array(elems) => {
                proof {
                    assert(decreases_to!(v@ => v@.kind));
                }
                match deserialize_elems(elems, inner, path) {
                    Result::Ok(ts) => Result::Ok(Typed::List(ts)),
                    Result::Err(e) => Result::Err(e),
                }
            },
            _ => Result::Err(mk_type_err(Kind::Array, v, path)),
        },
        Shape::Tuple(shapes) => match &v.kind {
            ValueKind::Array(elems) => if elems.len() == shapes.len() {
                proof {
                    crate::value::lemma_array_view(elems@);
                    assert(decreases_to!(v@ => v@.kind));
                }
                match deserialize_tuple(elems, shapes, path) {
                    Result::Ok(ts) => Result::Ok(Typed::Tuple(ts)),
                    Result::Err(e) => Result::Err(e),
                }
            } else {
                proof {
                    crate::value::lemma_array_view(elems@);
                }
                Result::Err(DeError {
                    kind: DeErrorKind::ArityMismatch {
                        expected: shapes.len(),
                        found: elems.len(),
                    },
                    path: clone_path(path),
                    origin: clone_origin(&v.origin),
                })
            },
            _ => Result::Err(mk_type_err(Kind::Array, v, path)),
        },
        Shape::Mapping(inner) => match &v.kind {
            ValueKind::Table(rows) => {
                proof {
                    assert(decreases_to!(v@ => v@.kind));
                }
                match deserialize_entries(rows, inner, path) {
                    Result::Ok(es) => Result::Ok(Typed::MapEntries(es)),
                    Result::Err(e) => Result::Err(e),
                }
            },
            _ => Result::Err(mk_type_err(Kind::Table, v, path)),
        },
        Shape::Record(fields) => match &v.kind {
            ValueKind::Table(rows) => {
                proof {
                    assert(decreases_to!(v@ => v@.kind));
                }
                match deserialize_fields(fields, rows, &v.origin, path) {
                    Result::Ok(es) => Result::Ok(Typed::Record(es)),
                    Result::Err(e) => Result::Err(e),
                }
            },
            _ => Result::Err(mk_type_err(Kind::Table, v, path)),
        },
        Shape::Enum(ename, variants) => deserialize_enum(v, ename, variants, path),

    }
}

/// Resolves an enum target from a string or a single-key table. A
/// string selects a unit variant by exact name (one that names a
/// payload-bearing variant is a type mismatch, since only the table form
/// can carry a payload).
#[verifier::rlimit(100)]
#[verifier::loop_isolation(false)]
fn deserialize_enum(
    v: &Value,
    ename: &String,
    variants: &Vec<VariantDef>,
    path: &mut Vec<String>,
) -> (r: Result<Typed, DeError>)
    ensures
        final(path)@ == old(path)@,
        match r {
            Result::Ok(t) => de_enum(v@, ename@, variants@, path_view(old(path)@))
                == Result::Ok::<TypedV, ErrV>(typed_view(t)),
            Result::Err(e) => de_enum(v@, ename@, variants@, path_view(old(path)@))
                == Result::Err::<TypedV, ErrV>(err_view(e)),
        },
    decreases v@, 0int,
{
match &v.kind {
        ValueKind::Str(s) => match find_variant_x(variants, s) {
            Option::Some(var) => match &var.payload {
                VariantShape::Unit => {
                    proof {
                        assert(typed_view(Typed::Unit) == TypedV::Unit);
                    }
                    Result::Ok(Typed::Variant(s.clone(), Box::new(Typed::Unit)))
                },
                _ => Result::Err(mk_type_err(Kind::Table, v, path)),
            },
            Option::None => Result::Err(DeError {
                kind: DeErrorKind::NoSuchVariant {
                    name: s.clone(),
                    enum_name: ename.clone(),
                },
                path: clone_path(path),
                origin: clone_origin(&v.origin),
            }),
        },
        ValueKind::Array(_) => Result::Err(DeError {
            kind: DeErrorKind::AmbiguousEnumRepresentation { enum_name: ename.clone() },
            path: clone_path(path),
            origin: clone_origin(&v.origin),
        }),
        ValueKind::Table(rows) => {
            let ghost vrows = crate::value::rows_view(rows@);
            proof {
                crate::value::lemma_rows_view(rows@);
            }
            if rows.len() != 1 {
                Result::Err(DeError {
                    kind: DeErrorKind::AmbiguousEnumRepresentation {
                        enum_name: ename.clone(),
                    },
                    path: clone_path(path),
                    origin: clone_origin(&v.origin),
                })
            } else {
                let key = &rows[0].0;
                let pv = &rows[0].1;
                match find_variant_x(variants, key) {
                    Option::None => Result::Err(DeError {
                        kind: DeErrorKind::NoSuchVariant {
                            name: key.clone(),
                            enum_name: ename.clone(),
                        },
                        path: clone_path(path),
                        origin: clone_origin(&v.origin),
                    }),
                    Option::Some(var) => {
                        proof {
                            assert(vrows[0] == (rows@[0].0@, crate::value::value_view(
                                rows@[0].1,
                            )));
                            assert(decreases_to!(v@ => v@.kind));
                            assert(decreases_to!(v@.kind => vrows));
                            assert(decreases_to!(vrows => vrows[0]));
                            assert(decreases_to!(vrows[0] => vrows[0].1));
                        }
                        let seg = key.clone();
                        proof {
                            assert(path_view(path@.push(seg)) =~= path_view(path@).push(
                                vrows[0].0,
                            ));
                        }
                        path.push(seg);
                        let res = deserialize_payload(pv, &var.payload, path);
                        path.pop();
                        proof {
                            assert(path@ =~= old(path)@);
                        }
                        match res {
                            Result::Ok(t) => Result::Ok(
                                Typed::Variant(key.clone(), Box::new(t)),
                            ),
                            Result::Err(e) => Result::Err(e),
                        }
                    },
                }
            }
        },
        _ => Result::Err(mk_type_err(Kind::Table, v, path)),
    }
}

/// Deserializes one enum variant's payload from the value under the
/// variant key.
#[verifier::loop_isolation(false)]
fn deserialize_payload(pv: &Value, payload: &VariantShape, path: &mut Vec<String>) -> (r: Result<
    Typed,
    DeError,
>)
    ensures
        final(path)@ == old(path)@,
        match r {
            Result::Ok(t) => de_payload(pv@, *payload, path_view(old(path)@)) == Result::Ok::<
                TypedV,
                ErrV,
            >(typed_view(t)),
            Result::Err(e) => de_payload(pv@, *payload, path_view(old(path)@)) == Result::Err::<
                TypedV,
                ErrV,
            >(err_view(e)),
        },
    decreases pv@, 1int, *payload,
{
    match payload {
        VariantShape::Unit => match &pv.kind {
            ValueKind::Nil => Result::Ok(Typed::Unit),
            _ => Result::Err(mk_type_err(Kind::Nil, pv, path)),
        },
        VariantShape::Newtype(inner) => deserialize(pv, inner, path),
        VariantShape::Tuple(shapes) => match &pv.kind {
            ValueKind::Array(elems) => if elems.len() == shapes.len() {
                proof {
                    crate::value::lemma_array_view(elems@);
                    assert(decreases_to!(pv@ => pv@.kind));
                }
                match deserialize_tuple(elems, shapes, path) {
                    Result::Ok(ts) => Result::Ok(Typed::Tuple(ts)),
                    Result::Err(e) => Result::Err(e),
                }
            } else {
                proof {
                    crate::value::lemma_array_view(elems@);
                }
                Result::Err(DeError {
                    kind: DeErrorKind::ArityMismatch {
                        expected: shapes.len(),
                        found: elems.len(),
                    },
                    path: clone_path(path),
                    origin: clone_origin(&pv.origin),
                })
            },
            _ => Result::Err(mk_type_err(Kind::Array, pv, path)),
        },
        VariantShape::Record(fields) => match &pv.kind {
            ValueKind::Table(rows) => {
                proof {
                    assert(decreases_to!(pv@ => pv@.kind));
                }
                match deserialize_fields(fields, rows, &pv.origin, path) {
                    Result::Ok(es) => Result::Ok(Typed::Record(es)),
                    Result::Err(e) => Result::Err(e),
                }
            },
            _ => Result::Err(mk_type_err(Kind::Table, pv, path)),
        },
    }
}

/// Deserializes every array element against one inner shape.
#[verifier::loop_isolation(false)]
fn deserialize_elems(elems: &Vec<Value>, inner: &Shape, path: &mut Vec<String>) -> (r: Result<
    Vec<Typed>,
    DeError,
>)
    ensures
        final(path)@ == old(path)@,
        match r {
            Result::Ok(ts) => de_elems(
                crate::value::array_view(elems@),
                *inner,
                path_view(old(path)@),
                0,
            ) == Result::Ok::<Seq<TypedV>, ErrV>(typed_seq_view(ts@)),
            Result::Err(e) => de_elems(
                crate::value::array_view(elems@),
                *inner,
                path_view(old(path)@),
                0,
            ) == Result::Err::<Seq<TypedV>, ErrV>(err_view(e)),
        },
    decreases crate::value::array_view(elems@),
{
    let ghost ev = crate::value::array_view(elems@);
    let ghost pathv = path_view(old(path)@);
    proof {
        crate::value::lemma_array_view(elems@);
        assert(ev.skip(0) =~= ev);
        assert(typed_seq_view(Seq::<Typed>::empty()) =~= Seq::<TypedV>::empty());
    }
    let mut out: Vec<Typed> = Vec::new();
    let mut i: usize = 0;
    while i < elems.len()
        invariant
            i <= elems@.len(),
            path@ == old(path)@,
            out@.len() == i,
            match de_elems(ev.skip(i as int), *inner, pathv, i as nat) {
                Result::Ok(ts) => de_elems(ev, *inner, pathv, 0) == Result::Ok::<
                    Seq<TypedV>,
                    ErrV,
                >(typed_seq_view(out@) + ts),
                Result::Err(e) => de_elems(ev, *inner, pathv, 0) == Result::Err::<
                    Seq<TypedV>,
                    ErrV,
                >(e),
            },
        decreases elems@.len() - i,
    {
        let ghost rest = ev.skip(i as int);
        proof {
            assert(rest[0] == ev[i as int]);
            assert(rest.drop_first() =~= ev.skip(i as int + 1));
            assert(decreases_to!(ev => ev[i as int]));
        }
        let seg = usize_to_string(i);
        proof {
            assert(path_view(path@.push(seg)) =~= pathv.push(dec_str(i as nat)));
        }
        path.push(seg);
        let res = deserialize(&elems[i], inner, path);
        path.pop();
        proof {
            assert(path@ =~= old(path)@);
        }
        match res {
            Result::Ok(t) => {
                let ghost out0 = out@;
                out.push(t);
                proof {
                    lemma_typed_seq_view(out@);
                    lemma_typed_seq_view(out0);
                    assert(typed_seq_view(out@) =~= typed_seq_view(out0) + seq![typed_view(t)]);
                    assert forall|ts2: Seq<TypedV>|
                        (typed_seq_view(out0) + (seq![typed_view(t)] + ts2)) =~= (typed_seq_view(
                            out@,
                        ) + ts2) by {};
                }
            },
            Result::Err(e) => {
                return Result::Err(e);
            },
        }
        i = i + 1;
    }
    proof {
        assert(ev.skip(ev.len() as int) =~= Seq::<Node>::empty());
        assert(typed_seq_view(out@) + Seq::<TypedV>::empty() =~= typed_seq_view(out@));
    }
    Result::Ok(out)
}

/// Deserializes tuple elements pairwise against the tuple's shapes.
#[verifier::loop_isolation(false)]
fn deserialize_tuple(elems: &Vec<Value>, shapes: &Vec<Shape>, path: &mut Vec<String>) -> (r:
    Result<Vec<Typed>, DeError>)
    requires
        elems@.len() == shapes@.len(),
    ensures
        final(path)@ == old(path)@,
        match r {
            Result::Ok(ts) => de_tuple(
                crate::value::array_view(elems@),
                shapes@,
                path_view(old(path)@),
                0,
            ) == Result::Ok::<Seq<TypedV>, ErrV>(typed_seq_view(ts@)),
            Result::Err(e) => de_tuple(
                crate::value::array_view(elems@),
                shapes@,
                path_view(old(path)@),
                0,
            ) == Result::Err::<Seq<TypedV>, ErrV>(err_view(e)),
        },
    decreases crate::value::array_view(elems@),
{
    let ghost ev = crate::value::array_view(elems@);
    let ghost pathv = path_view(old(path)@);
    proof {
        crate::value::lemma_array_view(elems@);
        assert(ev.skip(0) =~= ev);
        assert(shapes@.skip(0) =~= shapes@);
        assert(typed_seq_view(Seq::<Typed>::empty()) =~= Seq::<TypedV>::empty());
    }
    let mut out: Vec<Typed> = Vec::new();
    let mut i: usize = 0;
    while i < elems.len()
        invariant
            i <= elems@.len(),
            path@ == old(path)@,
            out@.len() == i,
            match de_tuple(ev.skip(i as int), shapes@.skip(i as int), pathv, i as nat) {
                Result::Ok(ts) => de_tuple(ev, shapes@, pathv, 0) == Result::Ok::<
                    Seq<TypedV>,
                    ErrV,
                >(typed_seq_view(out@) + ts),
                Result::Err(e) => de_tuple(ev, shapes@, pathv, 0) == Result::Err::<
                    Seq<TypedV>,
                    ErrV,
                >(e),
            },
        decreases elems@.len() - i,
    {
        let ghost rest = ev.skip(i as int);
        proof {
            assert(rest[0] == ev[i as int]);
            assert(rest.drop_first() =~= ev.skip(i as int + 1));
            assert(shapes@.skip(i as int)[0] == shapes@[i as int]);
            assert(shapes@.skip(i as int).drop_first() =~= shapes@.skip(i as int + 1));
            assert(decreases_to!(ev => ev[i as int]));
        }
        let seg = usize_to_string(i);
        proof {
            assert(path_view(path@.push(seg)) =~= pathv.push(dec_str(i as nat)));
        }
        path.push(seg);
        let res = deserialize(&elems[i], &shapes[i], path);
        path.pop();
        proof {
            assert(path@ =~= old(path)@);
        }
        match res {
            Result::Ok(t) => {
                let ghost out0 = out@;
                out.push(t);
                proof {
                    lemma_typed_seq_view(out@);
                    lemma_typed_seq_view(out0);
                    assert(typed_seq_view(out@) =~= typed_seq_view(out0) + seq![typed_view(t)]);
                    assert forall|ts2: Seq<TypedV>|
                        (typed_seq_view(out0) + (seq![typed_view(t)] + ts2)) =~= (typed_seq_view(
                            out@,
                        ) + ts2) by {};
                }
            },
            Result::Err(e) => {
                return Result::Err(e);
            },
        }
        i = i + 1;
    }
    proof {
        assert(ev.skip(ev.len() as int) =~= Seq::<Node>::empty());
        assert(typed_seq_view(out@) + Seq::<TypedV>::empty() =~= typed_seq_view(out@));
    }
    Result::Ok(out)
}

/// Deserializes every table entry against one inner shape, keeping the
/// keys in table order.
#[verifier::loop_isolation(false)]
fn deserialize_entries(
    rows: &Vec<(String, Value)>,
    inner: &Shape,
    path: &mut Vec<String>,
) -> (r: Result<Vec<(String, Typed)>, DeError>)
    ensures
        final(path)@ == old(path)@,
        match r {
            Result::Ok(es) => de_entries(
                crate::value::rows_view(rows@),
                *inner,
                path_view(old(path)@),
            ) == Result::Ok::<Seq<(Seq<char>, TypedV)>, ErrV>(typed_rows_view(es@)),
            Result::Err(e) => de_entries(
                crate::value::rows_view(rows@),
                *inner,
                path_view(old(path)@),
            ) == Result::Err::<Seq<(Seq<char>, TypedV)>, ErrV>(err_view(e)),
        },
    decreases crate::value::rows_view(rows@),
{
    let ghost vr = crate::value::rows_view(rows@);
    let ghost pathv = path_view(old(path)@);
    proof {
        crate::value::lemma_rows_view(rows@);
        assert(vr.skip(0) =~= vr);
        assert(typed_rows_view(Seq::<(String, Typed)>::empty()) =~= Seq::<
            (Seq<char>, TypedV),
        >::empty());
    }
    let mut out: Vec<(String, Typed)> = Vec::new();
    let mut i: usize = 0;
    while i < rows.len()
        invariant
            i <= rows@.len(),
            path@ == old(path)@,
            out@.len() == i,
            match de_entries(vr.skip(i as int), *inner, pathv) {
                Result::Ok(es) => de_entries(vr, *inner, pathv) == Result::Ok::<
                    Seq<(Seq<char>, TypedV)>,
                    ErrV,
                >(typed_rows_view(out@) + es),
                Result::Err(e) => de_entries(vr, *inner, pathv) == Result::Err::<
                    Seq<(Seq<char>, TypedV)>,
                    ErrV,
                >(e),
            },
        decreases rows@.len() - i,
    {
        let ghost rest = vr.skip(i as int);
        proof {
            assert(rest[0] == vr[i as int]);
            assert(rest.drop_first() =~= vr.skip(i as int + 1));
            assert(decreases_to!(vr => vr[i as int]));
            assert(decreases_to!(vr[i as int] => vr[i as int].1));
        }
        let key = rows[i].0.clone();
        proof {
            assert(path_view(path@.push(key)) =~= pathv.push(vr[i as int].0));
        }
        path.push(key);
        let res = deserialize(&rows[i].1, inner, path);
        path.pop();
        proof {
            assert(path@ =~= old(path)@);
        }
        match res {
            Result::Ok(t) => {
                let ghost out0 = out@;
                out.push((rows[i].0.clone(), t));
                proof {
                    lemma_typed_rows_view(out@);
                    lemma_typed_rows_view(out0);
                    assert(typed_rows_view(out@) =~= typed_rows_view(out0) + seq![
                        (vr[i as int].0, typed_view(t)),
                    ]);
                    assert forall|es2: Seq<(Seq<char>, TypedV)>|
                        (typed_rows_view(out0) + (seq![(vr[i as int].0, typed_view(t))] + es2))
                            =~= (typed_rows_view(out@) + es2) by {};
                }
            },
            Result::Err(e) => {
                return Result::Err(e);
            },
        }
        i = i + 1;
    }
    proof {
        assert(vr.skip(vr.len() as int) =~= Seq::<(Seq<char>, Node)>::empty());
        assert(typed_rows_view(out@) + Seq::<(Seq<char>, TypedV)>::empty() =~= typed_rows_view(
            out@,
        ));
    }
    Result::Ok(out)
}

/// Deserializes the declared record fields from a table, each looked up
/// by name and then alias; an absent optional field becomes `None`, and
/// extra table keys are ignored.
#[verifier::loop_isolation(false)]
fn deserialize_fields(
    fields: &Vec<Field>,
    rows: &Vec<(String, Value)>,
    table_origin: &Option<String>,
    path: &mut Vec<String>,
) -> (r: Result<Vec<(String, Typed)>, DeError>)
    ensures
        final(path)@ == old(path)@,
        match r {
            Result::Ok(es) => de_fields(
                fields@,
                crate::value::rows_view(rows@),
                crate::value::origin_view(*table_origin),
                path_view(old(path)@),
            ) == Result::Ok::<Seq<(Seq<char>, TypedV)>, ErrV>(typed_rows_view(es@)),
            Result::Err(e) => de_fields(
                fields@,
                crate::value::rows_view(rows@),
                crate::value::origin_view(*table_origin),
                path_view(old(path)@),
            ) == Result::Err::<Seq<(Seq<char>, TypedV)>, ErrV>(err_view(e)),
        },
    decreases crate::value::rows_view(rows@), 1int, fields@,
{
    let ghost vr = crate::value::rows_view(rows@);
    let ghost orgv = crate::value::origin_view(*table_origin);
    let ghost pathv = path_view(old(path)@);
    proof {
        crate::value::lemma_rows_view(rows@);
        assert(fields@.skip(0) =~= fields@);
        assert(typed_rows_view(Seq::<(String, Typed)>::empty()) =~= Seq::<
            (Seq<char>, TypedV),
        >::empty());
    }
    let mut out: Vec<(String, Typed)> = Vec::new();
    let mut i: usize = 0;
    while i < fields.len()
        invariant
            i <= fields@.len(),
            path@ == old(path)@,
            out@.len() == i,
            match de_fields(fields@.skip(i as int), vr, orgv, pathv) {
                Result::Ok(es) => de_fields(fields@, vr, orgv, pathv) == Result::Ok::<
                    Seq<(Seq<char>, TypedV)>,
                    ErrV,
                >(typed_rows_view(out@) + es),
                Result::Err(e) => de_fields(fields@, vr, orgv, pathv) == Result::Err::<
                    Seq<(Seq<char>, TypedV)>,
                    ErrV,
                >(e),
            },
        decreases fields@.len() - i,
    {
        proof {
            assert(fields@.skip(i as int)[0] == fields@[i as int]);
            assert(fields@.skip(i as int).drop_first() =~= fields@.skip(i as int + 1));
        }
        let f = &fields[i];
        let mut fv: Option<&Value> = crate::value::table_get(rows, &f.name);
        if fv.is_none() {
            match &f.alias {
                Option::Some(al) => {
                    fv = crate::value::table_get(rows, al);
                },
                Option::None => {},
            }
        }
        match fv {
            Option::Some(child) => {
                proof {
                    lemma_lookup_idx_either(vr, fields@[i as int], child@);
                }
                let seg = f.name.clone();
                proof {
                    assert(path_view(path@.push(seg)) =~= pathv.push(fields@[i as int].name@));
                }
                path.push(seg);
                let res = deserialize(child, &f.shape, path);
                path.pop();
                proof {
                    assert(path@ =~= old(path)@);
                }
                match res {
                    Result::Ok(t) => {
                        let ghost out0 = out@;
                        out.push((f.name.clone(), t));
                        proof {
                            lemma_typed_rows_view(out@);
                            lemma_typed_rows_view(out0);
                            assert(typed_rows_view(out@) =~= typed_rows_view(out0) + seq![
                                (fields@[i as int].name@, typed_view(t)),
                            ]);
                            assert forall|es2: Seq<(Seq<char>, TypedV)>|
                                (typed_rows_view(out0) + (seq![
                                    (fields@[i as int].name@, typed_view(t)),
                                ] + es2)) =~= (typed_rows_view(out@) + es2) by {};
                        }
                    },
                    Result::Err(e) => {
                        return Result::Err(e);
                    },
                }
            },
            Option::None => match &f.shape {
                Shape::Optional(_) => {
                    let ghost out0 = out@;
                    out.push((f.name.clone(), Typed::OptNone));
                    proof {
                        assert(typed_view(Typed::OptNone) == TypedV::OptNone);
                        lemma_typed_rows_view(out@);
                        lemma_typed_rows_view(out0);
                        assert(typed_rows_view(out@) =~= typed_rows_view(out0) + seq![
                            (fields@[i as int].name@, TypedV::OptNone),
                        ]);
                        assert forall|es2: Seq<(Seq<char>, TypedV)>|
                            (typed_rows_view(out0) + (seq![
                                (fields@[i as int].name@, TypedV::OptNone),
                            ] + es2)) =~= (typed_rows_view(out@) + es2) by {};
                    }
                },
                _ => {
                    return Result::Err(DeError {
                        kind: DeErrorKind::MissingField { field: f.name.clone() },
                        path: clone_path(path),
                        origin: clone_origin(table_origin),
                    });
                },
            },
        }
        i = i + 1;
    }
    proof {
        assert(fields@.skip(fields@.len() as int) =~= Seq::<Field>::empty());
        assert(typed_rows_view(out@) + Seq::<(Seq<char>, TypedV)>::empty() =~= typed_rows_view(
            out@,
        ));
    }
    Result::Ok(out)
}

/// The looked-up field value is one of the table's entries, so it sits
/// below the table for termination purposes.
proof fn lemma_lookup_idx_either(rows: Seq<(Seq<char>, Node)>, f: Field, child: Node)
    requires
        match lookup(rows, f.name@) {
            Option::Some(n) => n == child,
            Option::None => match f.alias {
                Option::Some(al) => lookup(rows, al@) == Option::Some(child),
                Option::None => false,
            },
        },
    ensures
        decreases_to!(rows => child),
{
    if lookup(rows, f.name@) is Some {
        lemma_lookup_idx(rows, f.name@);
        let i = lookup_idx(rows, f.name@);
        assert(decreases_to!(rows => rows[i]));
        assert(decreases_to!(rows[i] => rows[i].1));
    } else {
        match f.alias {
            Option::Some(al) => {
                lemma_lookup_idx(rows, al@);
                let i = lookup_idx(rows, al@);
                assert(decreases_to!(rows => rows[i]));
                assert(decreases_to!(rows[i] => rows[i].1));
            },
            Option::None => {},
        }
    }
}

/// Deserializes the subtree at a dotted path of the whole tree; errors
/// inside the subtree carry the full path from the root. A path that
/// names no node fails with `MissingField` holding the dotted path.
pub fn deserialize_at(tree: &Value, path: &Vec<String>, shape: &Shape) -> (r: Result<
    Typed,
    DeError,
>)
    ensures
        match crate::value::get_at_spec(tree@, path_view(path@)) {
            Option::Some(n) => match r {
                Result::Ok(t) => de(n, *shape, path_view(path@)) == Result::Ok::<TypedV, ErrV>(
                    typed_view(t),
                ),
                Result::Err(e) => de(n, *shape, path_view(path@)) == Result::Err::<
                    TypedV,
                    ErrV,
                >(err_view(e)),
            },
            Option::None => match r {
                Result::Ok(_) => false,
                Result::Err(e) => err_kind_view(e.kind) == (ErrKindV::MissingField {
                    field: dotted(path_view(path@)),
                }) && err_view(e).path == path_view(path@),
            },
        },
{
    match crate::value::get_at(tree, path) {
        Option::Some(sub) => {
            let mut p = clone_path(path);
            deserialize(sub, shape, &mut p)
        },
        Option::None => {
            let e = DeError {
                kind: DeErrorKind::MissingField { field: join_dotted(path) },
                path: clone_path(path),
                origin: Option::None,
            };
            Result::Err(e)
        },
    }
}

/// Every primitive node deserializes back to the equal value of its
/// matching target shape, at any path.
pub proof fn lemma_primitive_round_trip(v: Node, path: Seq<Seq<char>>)
    ensures
        v.kind is Boolean ==> de(v, Shape::Bool, path) == Result::Ok::<TypedV, ErrV>(
            TypedV::Bool(v.kind->Boolean_0),
        ),
        v.kind is Integer ==> de(v, Shape::Int, path) == Result::Ok::<TypedV, ErrV>(
            TypedV::Int(v.kind->Integer_0),
        ),
        v.kind is Float ==> de(v, Shape::Float, path) == Result::Ok::<TypedV, ErrV>(
            TypedV::Float(v.kind->Float_0),
        ),
        v.kind is Str ==> de(v, Shape::Str, path) == Result::Ok::<TypedV, ErrV>(
            TypedV::Str(v.kind->Str_0),
        ),
{
}

/// A `Nil` node deserializes into any optional target as `None`: an
/// explicitly nulled key is still present and still deserializable.
pub proof fn lemma_nil_deserializes_none(v: Node, inner: Shape, path: Seq<Seq<char>>)
    requires
        v.kind is Nil,
    ensures
        de(v, Shape::Optional(Box::new(inner)), path) == Result::Ok::<TypedV, ErrV>(
            TypedV::OptNone,
        ),
{
}

/// Null override, end to end: a later table binding `k` to `Nil` leaves
/// `k` present with the `Nil` value after the merge, and that value
/// deserializes into an optional target as `None`.
pub proof fn lemma_null_override_deserializes_none(
    ta: Seq<(Seq<char>, Node)>,
    tc: Seq<(Seq<char>, Node)>,
    k: Seq<char>,
    cv: Node,
    inner: Shape,
    path: Seq<Seq<char>>,
)
    requires
        lookup(tc, k) == Option::Some(cv),
        cv.kind is Nil,
    ensures
        lookup(crate::merge::merge_rows(ta, tc), k) == Option::Some(cv),
        de(cv, Shape::Optional(Box::new(inner)), path) == Result::Ok::<TypedV, ErrV>(
            TypedV::OptNone,
        ),
{
    crate::merge::lemma_null_override(ta, tc, k, cv);
}

/// The word for each kind in a type-mismatch message.
pub open spec fn kind_word(k: Kind) -> Seq<char> {
    match k {
        Kind::Nil => "unit"@,
        Kind::Boolean => "boolean"@,
        Kind::Integer => "integer"@,
        Kind::Float => "float"@,
        Kind::Str => "string"@,
        Kind::Array => "array"@,
        Kind::Table => "table"@,
    }
}

/// The expected-side phrase of a type-mismatch message.
pub open spec fn expected_word(k: Kind) -> Seq<char> {
    match k {
        Kind::Nil => "unit"@,
        Kind::Boolean => "a boolean"@,
        Kind::Integer => "an integer"@,
        Kind::Float => "a float"@,
        Kind::Str => "a string"@,
        Kind::Array => "an array"@,
        Kind::Table => "a table"@,
    }
}

/// How the offending value is rendered: a string is quoted, anything
/// else shows as its kind's word.
pub open spec fn found_repr(found: Kind, found_text: Option<Seq<char>>) -> Seq<char> {
    match found_text {
        Option::Some(s) => "string \""@ + s + "\""@,
        Option::None => kind_word(found),
    }
}

/// The human-readable message of each failure kind.
pub open spec fn message_view(k: ErrKindV) -> Seq<char> {
    match k {
        ErrKindV::TypeMismatch { expected, found, found_text } => "invalid type: "@ + found_repr(
            found,
            found_text,
        ) + ", expected "@ + expected_word(expected),
        ErrKindV::ArityMismatch { expected, found } => "invalid tuple length"@,
        ErrKindV::MissingField { field } => "missing field `"@ + field + "`"@,
        ErrKindV::NoSuchVariant { name, enum_name } => "enum "@ + enum_name
            + " does not have variant constructor "@ + name,
        ErrKindV::AmbiguousEnumRepresentation { enum_name } => "value of enum "@ + enum_name
            + " should be represented by either string or table with exactly one key"@,
    }
}

/// The message followed by the failure's location: the dotted path, and
/// the origin when the offending node has one.
pub open spec fn located_message_view(e: ErrV) -> Seq<char> {
    message_view(e.kind) + " for key `"@ + dotted(e.path) + "`"@ + (match e.origin {
        Option::Some(o) => " in "@ + o,
        Option::None => Seq::<char>::empty(),
    })
}

/// The expected-side phrase, the executable twin of [`expected_word`].
fn expected_word_x(k: Kind) -> (r: &'static str)
    ensures
        r@ == expected_word(k),
{
    match k {
        Kind::Nil => "unit",
        Kind::Boolean => "a boolean",
        Kind::Integer => "an integer",
        Kind::Float => "a float",
        Kind::Str => "a string",
        Kind::Array => "an array",
        Kind::Table => "a table",
    }
}

/// The kind's word, the executable twin of [`kind_word`].
fn kind_word_x(k: Kind) -> (r: &'static str)
    ensures
        r@ == kind_word(k),
{
    match k {
        Kind::Nil => "unit",
        Kind::Boolean => "boolean",
        Kind::Integer => "integer",
        Kind::Float => "float",
        Kind::Str => "string",
        Kind::Array => "array",
        Kind::Table => "table",
    }
}

/// The dotted rendering of a path's segments, `"inner.test"` style.
pub fn join_dotted(path: &Vec<String>) -> (r: String)
    ensures
        r@ == dotted(path_view(path@)),
{
    let mut out = String::new();
    let ghost segs = path_view(path@);
    let mut i: usize = 0;
    proof {
        assert(segs.take(0) =~= Seq::<Seq<char>>::empty());
    }
    while i < path.len()
        invariant
            i <= path.len(),
            segs == path_view(path@),
            segs.len() == path@.len(),
            forall|j: int| 0 <= j < segs.len() ==> segs[j] == path@[j]@,
            out@ == dotted(segs.take(i as int)),
        decreases path.len() - i,
    {
        if i > 0 {
            proof {
                reveal_strlit(".");
            }
            out.append(".");
        }
        out.append(path[i].as_str());
        proof {
            assert(segs.take(i + 1) =~= segs.take(i as int).push(segs[i as int]));
            lemma_dotted_push(segs.take(i as int), segs[i as int]);
            assert((".")@ =~= seq!['.']) by {
                reveal_strlit(".");
            }
        }
        i = i + 1;
    }
    proof {
        assert(segs.take(segs.len() as int) =~= segs);
    }
    out
}

impl DeError {
    /// The failure's location as a dotted path, `"inner.test"` style.
    pub fn path_string(&self) -> (r: String)
        ensures
            r@ == dotted(path_view(self.path@)),
    {
        join_dotted(&self.path)
    }

    /// The failure as a human-readable sentence, without its location.
    pub fn message(&self) -> (r: String)
        ensures
            r@ == message_view(err_kind_view(self.kind)),
    {
        let mut out = String::new();
        match &self.kind {
            DeErrorKind::TypeMismatch { expected, found, found_text } => {
                out.append("invalid type: ");
                match found_text {
                    Option::Some(s) => {
                        out.append("string \"");
                        out.append(s.as_str());
                        out.append("\"");
                    },
                    Option::None => {
                        out.append(kind_word_x(*found));
                    },
                }
                out.append(", expected ");
                out.append(expected_word_x(*expected));
            },
            DeErrorKind::ArityMismatch { expected: _, found: _ } => {
                out.append("invalid tuple length");
            },
            DeErrorKind::MissingField { field } => {
                out.append("missing field `");
                out.append(field.as_str());
                out.append("`");
            },
            DeErrorKind::NoSuchVariant { name, enum_name } => {
                out.append("enum ");
                out.append(enum_name.as_str());
                out.append(" does not have variant constructor ");
                out.append(name.as_str());
            },
            DeErrorKind::AmbiguousEnumRepresentation { enum_name } => {
                out.append("value of enum ");
                out.append(enum_name.as_str());
                out.append(" should be represented by either string or table with exactly one key");
            },
        }
        proof {
            assert(out@ =~= message_view(err_kind_view(self.kind)));
        }
        out
    }

    /// The failure as a sentence naming the dotted path and, when known,
    /// the origin of the offending node.
    pub fn located_message(&self) -> (r: String)
        ensures
            r@ == located_message_view(err_view(*self)),
    {
        let mut out = self.message();
        out.append(" for key `");
        let p = self.path_string();
        out.append(p.as_str());
        out.append("`");
        match &self.origin {
            Option::Some(o) => {
                out.append(" in ");
                out.append(o.as_str());
            },
            Option::None => {},
        }
        proof {
            assert(out@ =~= located_message_view(err_view(*self)));
        }
        out
    }
}

} // verus!
