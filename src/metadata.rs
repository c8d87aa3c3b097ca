//! Metadata values, their order, and the filter expression tree.
use vstd::prelude::*;
use vstd::utf8::encode_utf8;

verus! {

/// A typed metadata value. A floating-point value is held as the signed
/// integer whose order is the IEEE total order of the float.
#[derive(Debug)]
pub enum MetadataValue {
    Bool(bool),
    Int(i64),
    Float(i64),
    Str(String),
}

/// A list of values of one type, the operand of `In` and `NotIn`.
#[derive(Debug)]
pub enum MetadataSetValue {
    Bool(Vec<bool>),
    Int(Vec<i64>),
    Float(Vec<i64>),
    Str(Vec<String>),
}

#[derive(Clone, Copy, Debug, PartialEq, Eq, Structural)]
pub enum PrimitiveOperator {
    Equal,
    NotEqual,
    GreaterThan,
    GreaterThanOrEqual,
    LessThan,
    LessThanOrEqual,
}

#[derive(Clone, Copy, Debug, PartialEq, Eq, Structural)]
pub enum SetOperator {
    In,
    NotIn,
}

#[derive(Clone, Copy, Debug, PartialEq, Eq, Structural)]
pub enum DocumentOperator {
    Contains,
    NotContains,
}

#[derive(Clone, Copy, Debug, PartialEq, Eq, Structural)]
pub enum BooleanOperator {
    And,
    Or,
}

#[derive(Debug)]
pub enum WhereComparison {
    Primitive(PrimitiveOperator, MetadataValue),
    Membership(SetOperator, MetadataSetValue),
}

/// A comparison of the metadata value under `key`.
#[derive(Debug)]
pub struct DirectWhereComparison {
    pub key: String,
    pub comparison: WhereComparison,
}

/// A substring test on the document text.
#[derive(Debug)]
pub struct DirectDocumentComparison {
    pub document: String,
    pub operator: DocumentOperator,
}

/// A conjunction or disjunction of sub-expressions.
#[derive(Debug)]
pub struct WhereChildren {
    pub children: Vec<Where>,
    pub operator: BooleanOperator,
}

/// A filter expression.
#[derive(Debug)]
pub enum Where {
    DirectWhereComparison(DirectWhereComparison),
    DirectWhereDocumentComparison(DirectDocumentComparison),
    WhereChildren(WhereChildren),
}

/// The rank of a value's type: values of different types order by it.
pub open spec fn tag_rank(v: MetadataValue) -> int {
    match v {
        MetadataValue::Bool(_) => 0,
        MetadataValue::Int(_) => 1,
        MetadataValue::Float(_) => 2,
        MetadataValue::Str(_) => 3,
    }
}

pub open spec fn int_cmp(a: int, b: int) -> int {
    if a < b {
        -1
    } else if a > b {
        1
    } else {
        0
    }
}

/// Lexicographic comparison of byte strings: -1, 0 or 1.
pub open spec fn lex_cmp(a: Seq<u8>, b: Seq<u8>) -> int
    decreases a.len(),
{
    if a.len() == 0 {
        if b.len() == 0 {
            0
        } else {
            -1
        }
    } else if b.len() == 0 {
        1
    } else if a[0] != b[0] {
        int_cmp(a[0] as int, b[0] as int)
    } else {
        lex_cmp(a.drop_first(), b.drop_first())
    }
}

/// The UTF-8 bytes of a string.
pub open spec fn str_bytes(s: String) -> Seq<u8> {
    encode_utf8(s@)
}

/// Comparison of two metadata values: -1, 0 or 1. Values of one type compare
/// by their payload (strings by their UTF-8 bytes), values of different types
/// by their type.
pub open spec fn value_cmp(a: MetadataValue, b: MetadataValue) -> int {
    match (a, b) {
        (MetadataValue::Bool(x), MetadataValue::Bool(y)) => int_cmp(
            if x { 1int } else { 0int },
            if y { 1int } else { 0int },
        ),
        (MetadataValue::Int(x), MetadataValue::Int(y)) => int_cmp(x as int, y as int),
        (MetadataValue::Float(x), MetadataValue::Float(y)) => int_cmp(x as int, y as int),
        (MetadataValue::Str(x), MetadataValue::Str(y)) => lex_cmp(str_bytes(x), str_bytes(y)),
        _ => int_cmp(tag_rank(a), tag_rank(b)),
    }
}

/// Whether value `v` stands in relation `op` to `target`. `NotEqual` holds
/// of nothing here: it is answered one level up, by negation.
pub open spec fn satisfies(v: MetadataValue, target: MetadataValue, op: PrimitiveOperator) -> bool {
    let c = value_cmp(v, target);
    match op {
        PrimitiveOperator::Equal => c == 0,
        PrimitiveOperator::NotEqual => false,
        PrimitiveOperator::GreaterThan => c > 0,
        PrimitiveOperator::GreaterThanOrEqual => c >= 0,
        PrimitiveOperator::LessThan => c < 0,
        PrimitiveOperator::LessThanOrEqual => c <= 0,
    }
}

proof fn lemma_lex_cmp_zero(a: Seq<u8>, b: Seq<u8>)
    requires
        lex_cmp(a, b) == 0,
    ensures
        a == b,
    decreases a.len(),
{
    if a.len() > 0 && b.len() > 0 {
        lemma_lex_cmp_zero(a.drop_first(), b.drop_first());
        assert(a =~= seq![a[0]] + a.drop_first());
        assert(b =~= seq![b[0]] + b.drop_first());
    }
}

/// Values that compare equal are interchangeable in every comparison.
pub proof fn lemma_cmp_zero_congruent(a: MetadataValue, b: MetadataValue, t: MetadataValue)
    requires
        value_cmp(a, b) == 0,
    ensures
        value_cmp(b, a) == 0,
        value_cmp(a, t) == value_cmp(b, t),
        value_cmp(t, a) == value_cmp(t, b),
        forall|op: PrimitiveOperator| satisfies(a, t, op) == satisfies(b, t, op),
{
    if let (MetadataValue::Str(x), MetadataValue::Str(y)) = (a, b) {
        lemma_lex_cmp_zero(str_bytes(x), str_bytes(y));
    }
}

/// Every value compares equal to itself.
pub proof fn lemma_cmp_zero_self(a: MetadataValue)
    ensures
        value_cmp(a, a) == 0,
{
    if let MetadataValue::Str(x) = a {
        lemma_lex_cmp_self(str_bytes(x));
    }
}

proof fn lemma_lex_cmp_self(a: Seq<u8>)
    ensures
        lex_cmp(a, a) == 0,
    decreases a.len(),
{
    if a.len() > 0 {
        lemma_lex_cmp_self(a.drop_first());
    }
}

proof fn lemma_lex_cmp_antisym(a: Seq<u8>, b: Seq<u8>)
    ensures
        lex_cmp(a, b) == -lex_cmp(b, a),
    decreases a.len(),
{
    if a.len() > 0 && b.len() > 0 && a[0] == b[0] {
        lemma_lex_cmp_antisym(a.drop_first(), b.drop_first());
    }
}

proof fn lemma_lex_cmp_trans(a: Seq<u8>, b: Seq<u8>, c: Seq<u8>)
    requires
        lex_cmp(a, b) <= 0,
        lex_cmp(b, c) <= 0,
    ensures
        lex_cmp(a, c) <= 0,
        lex_cmp(a, b) < 0 || lex_cmp(b, c) < 0 ==> lex_cmp(a, c) < 0,
    decreases a.len(),
{
    if lex_cmp(a, b) == 0 {
        lemma_lex_cmp_zero(a, b);
    } else if lex_cmp(b, c) == 0 {
        lemma_lex_cmp_zero(b, c);
    } else if a.len() > 0 && b.len() > 0 && c.len() > 0 && a[0] == b[0] && b[0] == c[0] {
        lemma_lex_cmp_trans(a.drop_first(), b.drop_first(), c.drop_first());
    }
}

/// Swapping the operands negates the comparison.
pub proof fn lemma_value_cmp_antisym(a: MetadataValue, b: MetadataValue)
    ensures
        value_cmp(a, b) == -value_cmp(b, a),
{
    if let (MetadataValue::Str(x), MetadataValue::Str(y)) = (a, b) {
        lemma_lex_cmp_antisym(str_bytes(x), str_bytes(y));
    }
}

/// The comparison of values is transitive.
pub proof fn lemma_value_cmp_trans(a: MetadataValue, b: MetadataValue, c: MetadataValue)
    requires
        value_cmp(a, b) <= 0,
        value_cmp(b, c) <= 0,
    ensures
        value_cmp(a, c) <= 0,
        value_cmp(a, b) < 0 || value_cmp(b, c) < 0 ==> value_cmp(a, c) < 0,
{
    if let (MetadataValue::Str(x), MetadataValue::Str(y), MetadataValue::Str(z)) = (a, b, c) {
        lemma_lex_cmp_trans(str_bytes(x), str_bytes(y), str_bytes(z));
    }
}

/// Keys compare by their UTF-8 bytes.
pub open spec fn key_cmp(a: String, b: Seq<char>) -> int {
    lex_cmp(str_bytes(a), encode_utf8(b))
}

/// Keys that compare equal are the same string.
pub proof fn lemma_key_cmp_zero(a: String, b: Seq<char>)
    ensures
        key_cmp(a, b) == 0 <==> a@ == b,
{
    if key_cmp(a, b) == 0 {
        lemma_lex_cmp_zero(str_bytes(a), encode_utf8(b));
        vstd::utf8::encode_utf8_decode_utf8(a@);
        vstd::utf8::encode_utf8_decode_utf8(b);
    }
    if a@ == b {
        lemma_lex_cmp_self(encode_utf8(b));
    }
}

/// Swapping two keys negates their comparison.
pub proof fn lemma_key_cmp_antisym(a: String, b: String)
    ensures
        key_cmp(a, b@) == -key_cmp(b, a@),
{
    lemma_lex_cmp_antisym(str_bytes(a), str_bytes(b));
}

/// Keys compare transitively.
pub proof fn lemma_key_cmp_trans(a: String, b: String, c: Seq<char>)
    requires
        key_cmp(a, b@) <= 0,
        key_cmp(b, c) <= 0,
    ensures
        key_cmp(a, c) <= 0,
        key_cmp(a, b@) < 0 || key_cmp(b, c) < 0 ==> key_cmp(a, c) < 0,
{
    lemma_lex_cmp_trans(str_bytes(a), str_bytes(b), encode_utf8(c));
}

/// Compares the UTF-8 bytes of two keys: -1, 0 or 1.
pub fn compare_keys(a: &String, b: &String) -> (r: i8)
    ensures
        r as int == key_cmp(*a, b@),
{
    bytes_cmp(a.as_str().as_bytes(), b.as_str().as_bytes())
}

fn bytes_cmp(a: &[u8], b: &[u8]) -> (r: i8)
    ensures
        r as int == lex_cmp(a@, b@),
{
    let mut i: usize = 0;
    assert(a@.subrange(0, a@.len() as int) =~= a@);
    assert(b@.subrange(0, b@.len() as int) =~= b@);
    while i < a.len() && i < b.len()
        invariant
            i <= a@.len(),
            i <= b@.len(),
            lex_cmp(a@, b@) == lex_cmp(a@.subrange(i as int, a@.len() as int), b@.subrange(
                i as int,
                b@.len() as int,
            )),
        decreases a@.len() - i,
    {
        if a[i] != b[i] {
            return if a[i] < b[i] {
                -1
            } else {
                1
            };
        }
        assert(a@.subrange(i as int, a@.len() as int).drop_first() =~= a@.subrange(
            i + 1,
            a@.len() as int,
        ));
        assert(b@.subrange(i as int, b@.len() as int).drop_first() =~= b@.subrange(
            i + 1,
            b@.len() as int,
        ));
        i = i + 1;
    }
    if i < a.len() {
        1
    } else if i < b.len() {
        -1
    } else {
        0
    }
}

fn ordering_of(a: i64, b: i64) -> (r: i8)
    ensures
        r as int == int_cmp(a as int, b as int),
{
    if a < b {
        -1
    } else if a > b {
        1
    } else {
        0
    }
}

fn rank_of(v: &MetadataValue) -> (r: i64)
    ensures
        r as int == tag_rank(*v),
{
    match v {
        MetadataValue::Bool(_) => 0,
        MetadataValue::Int(_) => 1,
        MetadataValue::Float(_) => 2,
        MetadataValue::Str(_) => 3,
    }
}

impl MetadataValue {
    /// Compares two values: -1, 0 or 1.
    pub fn compare(&self, other: &MetadataValue) -> (r: i8)
        ensures
            r as int == value_cmp(*self, *other),
    {
        match (self, other) {
            (MetadataValue::Bool(x), MetadataValue::Bool(y)) => {
                let a: i64 = if *x { 1 } else { 0 };
                let b: i64 = if *y { 1 } else { 0 };
                ordering_of(a, b)
            },
            (MetadataValue::Int(x), MetadataValue::Int(y)) => ordering_of(*x, *y),
            (MetadataValue::Float(x), MetadataValue::Float(y)) => ordering_of(*x, *y),
            (MetadataValue::Str(x), MetadataValue::Str(y)) => bytes_cmp(
                x.as_str().as_bytes(),
                y.as_str().as_bytes(),
            ),
            _ => ordering_of(rank_of(self), rank_of(other)),
        }
    }

    /// Whether this value stands in relation `op` to `target`.
    pub fn satisfies(&self, target: &MetadataValue, op: PrimitiveOperator) -> (r: bool)
        ensures
            r == satisfies(*self, *target, op),
    {
        let c = self.compare(target);
        match op {
            PrimitiveOperator::Equal => c == 0,
            PrimitiveOperator::NotEqual => false,
            PrimitiveOperator::GreaterThan => c > 0,
            PrimitiveOperator::GreaterThanOrEqual => c >= 0,
            PrimitiveOperator::LessThan => c < 0,
            PrimitiveOperator::LessThanOrEqual => c <= 0,
        }
    }

    /// A copy of this value.
    pub fn duplicate(&self) -> (r: MetadataValue)
        ensures
            r == *self,
    {
        match self {
            MetadataValue::Bool(b) => MetadataValue::Bool(*b),
            MetadataValue::Int(i) => MetadataValue::Int(*i),
            MetadataValue::Float(f) => MetadataValue::Float(*f),
            MetadataValue::Str(s) => MetadataValue::Str(s.clone()),
        }
    }
}

} // verus!
