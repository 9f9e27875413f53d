//! Payloads stored under a node's keys.
//!
//! Binary floating-point numbers are carried as their IEEE-754 binary64 bit
//! patterns; comparing two of them follows IEEE-754 rules (a NaN equals
//! nothing, and the two zeros are equal).
use vstd::prelude::*;

verus! {

/// 2^52: the weight of the lowest exponent bit in a binary64 pattern.
pub const EXPONENT_UNIT: u64 = 0x10_0000_0000_0000;

/// 2^63: the sign bit of a binary64 pattern.
pub const SIGN_BIT: u64 = 0x8000_0000_0000_0000;

/// The pattern encodes a NaN: every exponent bit set and a non-zero fraction.
pub open spec fn is_nan_bits(b: u64) -> bool {
    (b / EXPONENT_UNIT) % 2048 == 2047 && b % EXPONENT_UNIT != 0
}

/// The pattern encodes +0 or -0.
pub open spec fn is_zero_bits(b: u64) -> bool {
    b % SIGN_BIT == 0
}

/// IEEE-754 equality of two binary64 patterns.
pub open spec fn same_number(a: u64, b: u64) -> bool {
    !is_nan_bits(a) && !is_nan_bits(b) && (a == b || (is_zero_bits(a) && is_zero_bits(b)))
}

/// IEEE-754 equality of two sequences of binary64 patterns, element by element.
pub open spec fn same_numbers(a: Seq<u64>, b: Seq<u64>) -> bool {
    a.len() == b.len() && forall|i: int| 0 <= i < a.len() ==> same_number(#[trigger] a[i], b[i])
}

/// Compares two binary64 patterns as numbers.
pub fn numbers_equal(a: u64, b: u64) -> (r: bool)
    ensures
        r == same_number(a, b),
{
    let a_nan = (a / EXPONENT_UNIT) % 2048 == 2047 && a % EXPONENT_UNIT != 0;
    let b_nan = (b / EXPONENT_UNIT) % 2048 == 2047 && b % EXPONENT_UNIT != 0;
    !a_nan && !b_nan && (a == b || (a % SIGN_BIT == 0 && b % SIGN_BIT == 0))
}

/// A number of one of three kinds, each widened to 64 bits.
#[derive(Debug)]
pub enum Number {
    Unsigned(u64),
    Signed(i64),
    /// A binary64 value, as its bit pattern.
    Float(u64),
}

impl Number {
    pub fn is_unsigned(&self) -> (r: bool)
        ensures
            r == (self is Unsigned),
    {
        match self {
            Number::Unsigned(_) => true,
            _ => false,
        }
    }

    pub fn as_unsigned(&self) -> (r: Option<u64>)
        ensures
            r == (match self {
                Number::Unsigned(n) => Some(*n),
                _ => None::<u64>,
            }),
    {
        match self {
            Number::Unsigned(n) => Some(*n),
            _ => None,
        }
    }

    pub fn is_signed(&self) -> (r: bool)
        ensures
            r == (self is Signed),
    {
        match self {
            Number::Signed(_) => true,
            _ => false,
        }
    }

    pub fn as_signed(&self) -> (r: Option<i64>)
        ensures
            r == (match self {
                Number::Signed(n) => Some(*n),
                _ => None::<i64>,
            }),
    {
        match self {
            Number::Signed(n) => Some(*n),
            _ => None,
        }
    }

    pub fn is_float(&self) -> (r: bool)
        ensures
            r == (self is Float),
    {
        match self {
            Number::Float(_) => true,
            _ => false,
        }
    }

    /// The bit pattern of a binary64 number.
    pub fn as_float(&self) -> (r: Option<u64>)
        ensures
            r == (match self {
                Number::Float(n) => Some(*n),
                _ => None::<u64>,
            }),
    {
        match self {
            Number::Float(n) => Some(*n),
            _ => None,
        }
    }
}

impl Clone for Number {
    fn clone(&self) -> (r: Self)
        ensures
            r == *self,
    {
        match self {
            Number::Unsigned(n) => Number::Unsigned(*n),
            Number::Signed(n) => Number::Signed(*n),
            Number::Float(n) => Number::Float(*n),
        }
    }
}

impl PartialEq for Number {
    fn eq(&self, other: &Number) -> (r: bool) {
        match (self, other) {
            (Number::Unsigned(a), Number::Unsigned(b)) => *a == *b,
            (Number::Signed(a), Number::Signed(b)) => *a == *b,
            (Number::Float(a), Number::Float(b)) => numbers_equal(*a, *b),
            _ => false,
        }
    }
}

impl vstd::std_specs::cmp::PartialEqSpecImpl for Number {
    open spec fn obeys_eq_spec() -> bool {
        true
    }

    open spec fn eq_spec(&self, other: &Number) -> bool {
        match (*self, *other) {
            (Number::Unsigned(a), Number::Unsigned(b)) => a == b,
            (Number::Signed(a), Number::Signed(b)) => a == b,
            (Number::Float(a), Number::Float(b)) => same_number(a, b),
            _ => false,
        }
    }
}

impl From<u64> for Number {
    fn from(value: u64) -> (r: Number) {
        Number::Unsigned(value)
    }
}

impl vstd::std_specs::convert::FromSpecImpl<u64> for Number {
    open spec fn obeys_from_spec() -> bool {
        true
    }

    open spec fn from_spec(value: u64) -> Number {
        Number::Unsigned(value)
    }
}

impl From<u32> for Number {
    fn from(value: u32) -> (r: Number) {
        Number::Unsigned(value as u64)
    }
}

impl vstd::std_specs::convert::FromSpecImpl<u32> for Number {
    open spec fn obeys_from_spec() -> bool {
        true
    }

    open spec fn from_spec(value: u32) -> Number {
        Number::Unsigned(value as u64)
    }
}

impl From<usize> for Number {
    fn from(value: usize) -> (r: Number) {
        Number::Unsigned(value as u64)
    }
}

impl vstd::std_specs::convert::FromSpecImpl<usize> for Number {
    open spec fn obeys_from_spec() -> bool {
        true
    }

    open spec fn from_spec(value: usize) -> Number {
        Number::Unsigned(value as u64)
    }
}

impl From<u16> for Number {
    fn from(value: u16) -> (r: Number) {
        Number::Unsigned(value as u64)
    }
}

impl vstd::std_specs::convert::FromSpecImpl<u16> for Number {
    open spec fn obeys_from_spec() -> bool {
        true
    }

    open spec fn from_spec(value: u16) -> Number {
        Number::Unsigned(value as u64)
    }
}

impl From<u8> for Number {
    fn from(value: u8) -> (r: Number) {
        Number::Unsigned(value as u64)
    }
}

impl vstd::std_specs::convert::FromSpecImpl<u8> for Number {
    open spec fn obeys_from_spec() -> bool {
        true
    }

    open spec fn from_spec(value: u8) -> Number {
        Number::Unsigned(value as u64)
    }
}

impl From<i64> for Number {
    fn from(value: i64) -> (r: Number) {
        Number::Signed(value)
    }
}

impl vstd::std_specs::convert::FromSpecImpl<i64> for Number {
    open spec fn obeys_from_spec() -> bool {
        true
    }

    open spec fn from_spec(value: i64) -> Number {
        Number::Signed(value)
    }
}

impl From<i32> for Number {
    fn from(value: i32) -> (r: Number) {
        Number::Signed(value as i64)
    }
}

impl vstd::std_specs::convert::FromSpecImpl<i32> for Number {
    open spec fn obeys_from_spec() -> bool {
        true
    }

    open spec fn from_spec(value: i32) -> Number {
        Number::Signed(value as i64)
    }
}

impl From<isize> for Number {
    fn from(value: isize) -> (r: Number) {
        Number::Signed(value as i64)
    }
}

impl vstd::std_specs::convert::FromSpecImpl<isize> for Number {
    open spec fn obeys_from_spec() -> bool {
        true
    }

    open spec fn from_spec(value: isize) -> Number {
        Number::Signed(value as i64)
    }
}

impl From<i16> for Number {
    fn from(value: i16) -> (r: Number) {
        Number::Signed(value as i64)
    }
}

impl vstd::std_specs::convert::FromSpecImpl<i16> for Number {
    open spec fn obeys_from_spec() -> bool {
        true
    }

    open spec fn from_spec(value: i16) -> Number {
        Number::Signed(value as i64)
    }
}

impl From<i8> for Number {
    fn from(value: i8) -> (r: Number) {
        Number::Signed(value as i64)
    }
}

impl vstd::std_specs::convert::FromSpecImpl<i8> for Number {
    open spec fn obeys_from_spec() -> bool {
        true
    }

    open spec fn from_spec(value: i8) -> Number {
        Number::Signed(value as i64)
    }
}

/// A tagged payload. Each variant is immutable once built.
#[derive(Debug)]
pub enum Value {
    String(String),
    Boolean(bool),
    Integer(i64),
    /// A binary64 value, as its bit pattern.
    Float(u64),
    Integers(Vec<i64>),
    /// Binary64 values, as their bit patterns, in order.
    Floats(Vec<u64>),
}

/// The mathematical content of a [`Value`]: its variant and what it holds.
pub enum ValueView {
    String(Seq<char>),
    Boolean(bool),
    Integer(i64),
    Float(u64),
    Integers(Seq<i64>),
    Floats(Seq<u64>),
}

impl View for Value {
    type V = ValueView;

    open spec fn view(&self) -> ValueView {
        match self {
            Value::String(s) => ValueView::String(s@),
            Value::Boolean(b) => ValueView::Boolean(*b),
            Value::Integer(n) => ValueView::Integer(*n),
            Value::Float(n) => ValueView::Float(*n),
            Value::Integers(v) => ValueView::Integers(v@),
            Value::Floats(v) => ValueView::Floats(v@),
        }
    }
}

/// The value holds a NaN somewhere, the one thing that is not equal to itself.
pub open spec fn holds_nan(v: ValueView) -> bool {
    match v {
        ValueView::Float(b) => is_nan_bits(b),
        ValueView::Floats(bs) => exists|i: int| 0 <= i < bs.len() && is_nan_bits(#[trigger] bs[i]),
        _ => false,
    }
}

/// Equality of two values: same variant, equal contents.
pub open spec fn same_value(a: ValueView, b: ValueView) -> bool {
    match (a, b) {
        (ValueView::String(x), ValueView::String(y)) => x == y,
        (ValueView::Boolean(x), ValueView::Boolean(y)) => x == y,
        (ValueView::Integer(x), ValueView::Integer(y)) => x == y,
        (ValueView::Float(x), ValueView::Float(y)) => same_number(x, y),
        (ValueView::Integers(x), ValueView::Integers(y)) => x == y,
        (ValueView::Floats(x), ValueView::Floats(y)) => same_numbers(x, y),
        _ => false,
    }
}

fn integers_equal(a: &Vec<i64>, b: &Vec<i64>) -> (r: bool)
    ensures
        r == (a@ == b@),
{
    if a.len() != b.len() {
        return false;
    }
    let mut i: usize = 0;
    while i < a.len()
        invariant
            a.len() == b.len(),
            i <= a.len(),
            forall|j: int| 0 <= j < i ==> a@[j] == b@[j],
        decreases a.len() - i,
    {
        if a[i] != b[i] {
            return false;
        }
        i = i + 1;
    }
    assert(a@ =~= b@);
    true
}

fn floats_equal(a: &Vec<u64>, b: &Vec<u64>) -> (r: bool)
    ensures
        r == same_numbers(a@, b@),
{
    if a.len() != b.len() {
        return false;
    }
    let mut i: usize = 0;
    while i < a.len()
        invariant
            a.len() == b.len(),
            i <= a.len(),
            forall|j: int| 0 <= j < i ==> same_number(#[trigger] a@[j], b@[j]),
        decreases a.len() - i,
    {
        if !numbers_equal(a[i], b[i]) {
            return false;
        }
        i = i + 1;
    }
    true
}

impl PartialEq for Value {
    fn eq(&self, other: &Value) -> (r: bool) {
        match (self, other) {
            (Value::String(x), Value::String(y)) => String::eq(x, y),
            (Value::Boolean(x), Value::Boolean(y)) => *x == *y,
            (Value::Integer(x), Value::Integer(y)) => *x == *y,
            (Value::Float(x), Value::Float(y)) => numbers_equal(*x, *y),
            (Value::Integers(x), Value::Integers(y)) => integers_equal(x, y),
            (Value::Floats(x), Value::Floats(y)) => floats_equal(x, y),
            _ => false,
        }
    }
}

impl vstd::std_specs::cmp::PartialEqSpecImpl for Value {
    open spec fn obeys_eq_spec() -> bool {
        true
    }

    open spec fn eq_spec(&self, other: &Value) -> bool {
        same_value(self@, other@)
    }
}

impl Clone for Value {
    fn clone(&self) -> (r: Self)
        ensures
            r@ == self@,
    {
        match self {
            Value::String(s) => Value::String(String::clone(s)),
            Value::Boolean(b) => Value::Boolean(*b),
            Value::Integer(n) => Value::Integer(*n),
            Value::Float(n) => Value::Float(*n),
            Value::Integers(v) => {
                let c = v.clone();
                assert(c@ =~= v@);
                Value::Integers(c)
            },
            Value::Floats(v) => {
                let c = v.clone();
                assert(c@ =~= v@);
                Value::Floats(c)
            },
        }
    }
}

/// A clone (which has the same view, see `Value::clone`) compares equal to
/// the original (see `Value::eq`), unless the value holds a NaN.
pub proof fn lemma_clone_compares_equal(v: ValueView)
    requires
        !holds_nan(v),
    ensures
        same_value(v, v),
{
    if let ValueView::Floats(bs) = v {
        assert forall|i: int| 0 <= i < bs.len() implies same_number(#[trigger] bs[i], bs[i]) by {
            assert(!is_nan_bits(bs[i]));
        }
    }
}

impl Value {
    pub fn as_string(&self) -> (r: Option<&str>)
        ensures
            match self {
                Value::String(s) => r matches Some(t) && t@ == s@,
                _ => r is None,
            },
    {
        match self {
            Value::String(s) => Some(s.as_str()),
            _ => None,
        }
    }

    pub fn as_bool(&self) -> (r: Option<bool>)
        ensures
            r == (match self {
                Value::Boolean(b) => Some(*b),
                _ => None::<bool>,
            }),
    {
        match self {
            Value::Boolean(b) => Some(*b),
            _ => None,
        }
    }

    pub fn as_integer(&self) -> (r: Option<i64>)
        ensures
            r == (match self {
                Value::Integer(n) => Some(*n),
                _ => None::<i64>,
            }),
    {
        match self {
            Value::Integer(n) => Some(*n),
            _ => None,
        }
    }

    /// The bit pattern of a binary64 value.
    pub fn as_float(&self) -> (r: Option<u64>)
        ensures
            r == (match self {
                Value::Float(n) => Some(*n),
                _ => None::<u64>,
            }),
    {
        match self {
            Value::Float(n) => Some(*n),
            _ => None,
        }
    }

    pub fn as_integers(&self) -> (r: Option<&Vec<i64>>)
        ensures
            match self {
                Value::Integers(v) => r matches Some(w) && w@ == v@,
                _ => r is None,
            },
    {
        match self {
            Value::Integers(v) => Some(v),
            _ => None,
        }
    }

    /// The bit patterns of a sequence of binary64 values.
    pub fn as_floats(&self) -> (r: Option<&Vec<u64>>)
        ensures
            match self {
                Value::Floats(v) => r matches Some(w) && w@ == v@,
                _ => r is None,
            },
    {
        match self {
            Value::Floats(v) => Some(v),
            _ => None,
        }
    }
}

impl From<String> for Value {
    fn from(value: String) -> (r: Value) {
        Value::String(value)
    }
}

impl vstd::std_specs::convert::FromSpecImpl<String> for Value {
    open spec fn obeys_from_spec() -> bool {
        true
    }

    open spec fn from_spec(value: String) -> Value {
        Value::String(value)
    }
}

impl From<bool> for Value {
    fn from(value: bool) -> (r: Value) {
        Value::Boolean(value)
    }
}

impl vstd::std_specs::convert::FromSpecImpl<bool> for Value {
    open spec fn obeys_from_spec() -> bool {
        true
    }

    open spec fn from_spec(value: bool) -> Value {
        Value::Boolean(value)
    }
}

impl From<i64> for Value {
    fn from(value: i64) -> (r: Value) {
        Value::Integer(value)
    }
}

impl vstd::std_specs::convert::FromSpecImpl<i64> for Value {
    open spec fn obeys_from_spec() -> bool {
        true
    }

    open spec fn from_spec(value: i64) -> Value {
        Value::Integer(value)
    }
}

impl From<Vec<i64>> for Value {
    fn from(value: Vec<i64>) -> (r: Value) {
        Value::Integers(value)
    }
}

impl vstd::std_specs::convert::FromSpecImpl<Vec<i64>> for Value {
    open spec fn obeys_from_spec() -> bool {
        true
    }

    open spec fn from_spec(value: Vec<i64>) -> Value {
        Value::Integers(value)
    }
}

// `From` conversions that build a `String` or a `Vec` from what they are given:
// their results are stated on `from` itself, over views, because a `String`
// or `Vec` cannot be written down in a spec expression.
impl vstd::std_specs::convert::FromSpecImpl<&str> for Value {
    open spec fn obeys_from_spec() -> bool {
        false
    }

    open spec fn from_spec(value: &str) -> Value {
        choose|r: Value| r@ == ValueView::String(value@)
    }
}

impl From<&str> for Value {
    fn from(value: &str) -> (r: Value)
        ensures
            r@ == ValueView::String(value@),
    {
        Value::String(value.to_owned())
    }
}

impl vstd::std_specs::convert::FromSpecImpl<Vec<i32>> for Value {
    open spec fn obeys_from_spec() -> bool {
        false
    }

    open spec fn from_spec(value: Vec<i32>) -> Value {
        choose|r: Value| r@ == ValueView::Integers(value@.map_values(|x: i32| x as i64))
    }
}

impl From<Vec<i32>> for Value {
    /// Each item widened to 64 bits, in order.
    fn from(value: Vec<i32>) -> (r: Value)
        ensures
            r@ == ValueView::Integers(value@.map_values(|x: i32| x as i64)),
    {
        let mut wide: Vec<i64> = Vec::new();
        let mut i: usize = 0;
        while i < value.len()
            invariant
                i <= value@.len(),
                wide@ == value@.subrange(0, i as int).map_values(|x: i32| x as i64),
            decreases value@.len() - i,
        {
            wide.push(value[i] as i64);
            i = i + 1;
            assert(wide@ =~= value@.subrange(0, i as int).map_values(|x: i32| x as i64));
        }
        assert(value@.subrange(0, value@.len() as int) =~= value@);
        Value::Integers(wide)
    }
}

impl vstd::std_specs::convert::FromSpecImpl<Vec<u32>> for Value {
    open spec fn obeys_from_spec() -> bool {
        false
    }

    open spec fn from_spec(value: Vec<u32>) -> Value {
        choose|r: Value| r@ == ValueView::Integers(value@.map_values(|x: u32| x as i64))
    }
}

impl From<Vec<u32>> for Value {
    /// Each item widened to 64 bits, in order.
    fn from(value: Vec<u32>) -> (r: Value)
        ensures
            r@ == ValueView::Integers(value@.map_values(|x: u32| x as i64)),
    {
        let mut wide: Vec<i64> = Vec::new();
        let mut i: usize = 0;
        while i < value.len()
            invariant
                i <= value@.len(),
                wide@ == value@.subrange(0, i as int).map_values(|x: u32| x as i64),
            decreases value@.len() - i,
        {
            wide.push(value[i] as i64);
            i = i + 1;
            assert(wide@ =~= value@.subrange(0, i as int).map_values(|x: u32| x as i64));
        }
        assert(value@.subrange(0, value@.len() as int) =~= value@);
        Value::Integers(wide)
    }
}

impl vstd::std_specs::convert::FromSpecImpl<Vec<i16>> for Value {
    open spec fn obeys_from_spec() -> bool {
        false
    }

    open spec fn from_spec(value: Vec<i16>) -> Value {
        choose|r: Value| r@ == ValueView::Integers(value@.map_values(|x: i16| x as i64))
    }
}

impl From<Vec<i16>> for Value {
    /// Each item widened to 64 bits, in order.
    fn from(value: Vec<i16>) -> (r: Value)
        ensures
            r@ == ValueView::Integers(value@.map_values(|x: i16| x as i64)),
    {
        let mut wide: Vec<i64> = Vec::new();
        let mut i: usize = 0;
        while i < value.len()
            invariant
                i <= value@.len(),
                wide@ == value@.subrange(0, i as int).map_values(|x: i16| x as i64),
            decreases value@.len() - i,
        {
            wide.push(value[i] as i64);
            i = i + 1;
            assert(wide@ =~= value@.subrange(0, i as int).map_values(|x: i16| x as i64));
        }
        assert(value@.subrange(0, value@.len() as int) =~= value@);
        Value::Integers(wide)
    }
}

impl vstd::std_specs::convert::FromSpecImpl<Vec<u16>> for Value {
    open spec fn obeys_from_spec() -> bool {
        false
    }

    open spec fn from_spec(value: Vec<u16>) -> Value {
        choose|r: Value| r@ == ValueView::Integers(value@.map_values(|x: u16| x as i64))
    }
}

impl From<Vec<u16>> for Value {
    /// Each item widened to 64 bits, in order.
    fn from(value: Vec<u16>) -> (r: Value)
        ensures
            r@ == ValueView::Integers(value@.map_values(|x: u16| x as i64)),
    {
        let mut wide: Vec<i64> = Vec::new();
        let mut i: usize = 0;
        while i < value.len()
            invariant
                i <= value@.len(),
                wide@ == value@.subrange(0, i as int).map_values(|x: u16| x as i64),
            decreases value@.len() - i,
        {
            wide.push(value[i] as i64);
            i = i + 1;
            assert(wide@ =~= value@.subrange(0, i as int).map_values(|x: u16| x as i64));
        }
        assert(value@.subrange(0, value@.len() as int) =~= value@);
        Value::Integers(wide)
    }
}

impl vstd::std_specs::convert::FromSpecImpl<Vec<i8>> for Value {
    open spec fn obeys_from_spec() -> bool {
        false
    }

    open spec fn from_spec(value: Vec<i8>) -> Value {
        choose|r: Value| r@ == ValueView::Integers(value@.map_values(|x: i8| x as i64))
    }
}

impl From<Vec<i8>> for Value {
    /// Each item widened to 64 bits, in order.
    fn from(value: Vec<i8>) -> (r: Value)
        ensures
            r@ == ValueView::Integers(value@.map_values(|x: i8| x as i64)),
    {
        let mut wide: Vec<i64> = Vec::new();
        let mut i: usize = 0;
        while i < value.len()
            invariant
                i <= value@.len(),
                wide@ == value@.subrange(0, i as int).map_values(|x: i8| x as i64),
            decreases value@.len() - i,
        {
            wide.push(value[i] as i64);
            i = i + 1;
            assert(wide@ =~= value@.subrange(0, i as int).map_values(|x: i8| x as i64));
        }
        assert(value@.subrange(0, value@.len() as int) =~= value@);
        Value::Integers(wide)
    }
}

impl vstd::std_specs::convert::FromSpecImpl<Vec<u8>> for Value {
    open spec fn obeys_from_spec() -> bool {
        false
    }

    open spec fn from_spec(value: Vec<u8>) -> Value {
        choose|r: Value| r@ == ValueView::Integers(value@.map_values(|x: u8| x as i64))
    }
}

impl From<Vec<u8>> for Value {
    /// Each item widened to 64 bits, in order.
    fn from(value: Vec<u8>) -> (r: Value)
        ensures
            r@ == ValueView::Integers(value@.map_values(|x: u8| x as i64)),
    {
        let mut wide: Vec<i64> = Vec::new();
        let mut i: usize = 0;
        while i < value.len()
            invariant
                i <= value@.len(),
                wide@ == value@.subrange(0, i as int).map_values(|x: u8| x as i64),
            decreases value@.len() - i,
        {
            wide.push(value[i] as i64);
            i = i + 1;
            assert(wide@ =~= value@.subrange(0, i as int).map_values(|x: u8| x as i64));
        }
        assert(value@.subrange(0, value@.len() as int) =~= value@);
        Value::Integers(wide)
    }
}

impl vstd::std_specs::convert::FromSpecImpl<&Vec<i64>> for Value {
    open spec fn obeys_from_spec() -> bool {
        false
    }

    open spec fn from_spec(value: &Vec<i64>) -> Value {
        choose|r: Value| r@ == ValueView::Integers(value@.map_values(|x: i64| x))
    }
}

impl From<&Vec<i64>> for Value {
    /// Each item widened to 64 bits, in order.
    fn from(value: &Vec<i64>) -> (r: Value)
        ensures
            r@ == ValueView::Integers(value@.map_values(|x: i64| x)),
    {
        let mut wide: Vec<i64> = Vec::new();
        let mut i: usize = 0;
        while i < value.len()
            invariant
                i <= value@.len(),
                wide@ == value@.subrange(0, i as int).map_values(|x: i64| x),
            decreases value@.len() - i,
        {
            wide.push(value[i]);
            i = i + 1;
            assert(wide@ =~= value@.subrange(0, i as int).map_values(|x: i64| x));
        }
        assert(value@.subrange(0, value@.len() as int) =~= value@);
        Value::Integers(wide)
    }
}

impl vstd::std_specs::convert::FromSpecImpl<&Vec<i32>> for Value {
    open spec fn obeys_from_spec() -> bool {
        false
    }

    open spec fn from_spec(value: &Vec<i32>) -> Value {
        choose|r: Value| r@ == ValueView::Integers(value@.map_values(|x: i32| x as i64))
    }
}

impl From<&Vec<i32>> for Value {
    /// Each item widened to 64 bits, in order.
    fn from(value: &Vec<i32>) -> (r: Value)
        ensures
            r@ == ValueView::Integers(value@.map_values(|x: i32| x as i64)),
    {
        let mut wide: Vec<i64> = Vec::new();
        let mut i: usize = 0;
        while i < value.len()
            invariant
                i <= value@.len(),
                wide@ == value@.subrange(0, i as int).map_values(|x: i32| x as i64),
            decreases value@.len() - i,
        {
            wide.push(value[i] as i64);
            i = i + 1;
            assert(wide@ =~= value@.subrange(0, i as int).map_values(|x: i32| x as i64));
        }
        assert(value@.subrange(0, value@.len() as int) =~= value@);
        Value::Integers(wide)
    }
}

impl vstd::std_specs::convert::FromSpecImpl<&Vec<u32>> for Value {
    open spec fn obeys_from_spec() -> bool {
        false
    }

    open spec fn from_spec(value: &Vec<u32>) -> Value {
        choose|r: Value| r@ == ValueView::Integers(value@.map_values(|x: u32| x as i64))
    }
}

impl From<&Vec<u32>> for Value {
    /// Each item widened to 64 bits, in order.
    fn from(value: &Vec<u32>) -> (r: Value)
        ensures
            r@ == ValueView::Integers(value@.map_values(|x: u32| x as i64)),
    {
        let mut wide: Vec<i64> = Vec::new();
        let mut i: usize = 0;
        while i < value.len()
            invariant
                i <= value@.len(),
                wide@ == value@.subrange(0, i as int).map_values(|x: u32| x as i64),
            decreases value@.len() - i,
        {
            wide.push(value[i] as i64);
            i = i + 1;
            assert(wide@ =~= value@.subrange(0, i as int).map_values(|x: u32| x as i64));
        }
        assert(value@.subrange(0, value@.len() as int) =~= value@);
        Value::Integers(wide)
    }
}

impl vstd::std_specs::convert::FromSpecImpl<&Vec<i16>> for Value {
    open spec fn obeys_from_spec() -> bool {
        false
    }

    open spec fn from_spec(value: &Vec<i16>) -> Value {
        choose|r: Value| r@ == ValueView::Integers(value@.map_values(|x: i16| x as i64))
    }
}

impl From<&Vec<i16>> for Value {
    /// Each item widened to 64 bits, in order.
    fn from(value: &Vec<i16>) -> (r: Value)
        ensures
            r@ == ValueView::Integers(value@.map_values(|x: i16| x as i64)),
    {
        let mut wide: Vec<i64> = Vec::new();
        let mut i: usize = 0;
        while i < value.len()
            invariant
                i <= value@.len(),
                wide@ == value@.subrange(0, i as int).map_values(|x: i16| x as i64),
            decreases value@.len() - i,
        {
            wide.push(value[i] as i64);
            i = i + 1;
            assert(wide@ =~= value@.subrange(0, i as int).map_values(|x: i16| x as i64));
        }
        assert(value@.subrange(0, value@.len() as int) =~= value@);
        Value::Integers(wide)
    }
}

impl vstd::std_specs::convert::FromSpecImpl<&Vec<u16>> for Value {
    open spec fn obeys_from_spec() -> bool {
        false
    }

    open spec fn from_spec(value: &Vec<u16>) -> Value {
        choose|r: Value| r@ == ValueView::Integers(value@.map_values(|x: u16| x as i64))
    }
}

impl From<&Vec<u16>> for Value {
    /// Each item widened to 64 bits, in order.
    fn from(value: &Vec<u16>) -> (r: Value)
        ensures
            r@ == ValueView::Integers(value@.map_values(|x: u16| x as i64)),
    {
        let mut wide: Vec<i64> = Vec::new();
        let mut i: usize = 0;
        while i < value.len()
            invariant
                i <= value@.len(),
                wide@ == value@.subrange(0, i as int).map_values(|x: u16| x as i64),
            decreases value@.len() - i,
        {
            wide.push(value[i] as i64);
            i = i + 1;
            assert(wide@ =~= value@.subrange(0, i as int).map_values(|x: u16| x as i64));
        }
        assert(value@.subrange(0, value@.len() as int) =~= value@);
        Value::Integers(wide)
    }
}

impl vstd::std_specs::convert::FromSpecImpl<&Vec<i8>> for Value {
    open spec fn obeys_from_spec() -> bool {
        false
    }

    open spec fn from_spec(value: &Vec<i8>) -> Value {
        choose|r: Value| r@ == ValueView::Integers(value@.map_values(|x: i8| x as i64))
    }
}

impl From<&Vec<i8>> for Value {
    /// Each item widened to 64 bits, in order.
    fn from(value: &Vec<i8>) -> (r: Value)
        ensures
            r@ == ValueView::Integers(value@.map_values(|x: i8| x as i64)),
    {
        let mut wide: Vec<i64> = Vec::new();
        let mut i: usize = 0;
        while i < value.len()
            invariant
                i <= value@.len(),
                wide@ == value@.subrange(0, i as int).map_values(|x: i8| x as i64),
            decreases value@.len() - i,
        {
            wide.push(value[i] as i64);
            i = i + 1;
            assert(wide@ =~= value@.subrange(0, i as int).map_values(|x: i8| x as i64));
        }
        assert(value@.subrange(0, value@.len() as int) =~= value@);
        Value::Integers(wide)
    }
}

impl vstd::std_specs::convert::FromSpecImpl<&Vec<u8>> for Value {
    open spec fn obeys_from_spec() -> bool {
        false
    }

    open spec fn from_spec(value: &Vec<u8>) -> Value {
        choose|r: Value| r@ == ValueView::Integers(value@.map_values(|x: u8| x as i64))
    }
}

impl From<&Vec<u8>> for Value {
    /// Each item widened to 64 bits, in order.
    fn from(value: &Vec<u8>) -> (r: Value)
        ensures
            r@ == ValueView::Integers(value@.map_values(|x: u8| x as i64)),
    {
        let mut wide: Vec<i64> = Vec::new();
        let mut i: usize = 0;
        while i < value.len()
            invariant
                i <= value@.len(),
                wide@ == value@.subrange(0, i as int).map_values(|x: u8| x as i64),
            decreases value@.len() - i,
        {
            wide.push(value[i] as i64);
            i = i + 1;
            assert(wide@ =~= value@.subrange(0, i as int).map_values(|x: u8| x as i64));
        }
        assert(value@.subrange(0, value@.len() as int) =~= value@);
        Value::Integers(wide)
    }
}

} // verus!
