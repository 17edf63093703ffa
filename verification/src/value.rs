use vstd::prelude::*;

verus! {

/// All eleven exponent bits together with the two highest mantissa bits.
/// A 64-bit pattern with all of these bits set is a quiet NaN that ordinary
/// IEEE-754 arithmetic does not produce on real operands, so those patterns
/// are reserved as the tag space for the non-number values below.  The one
/// quiet-NaN payload that collides with the mask itself is therefore
/// unrepresentable as a number; that is a documented trade-off of the
/// encoding, not an invariant this module relies on.
pub const QNAN: u64 = 0x7ffc000000000000;

/// The IEEE-754 sign bit of a 64-bit float.
pub const SIGN_BIT: u64 = 0x8000000000000000;

/// The tag for the nil value.
pub const NIL_VAL: u64 = QNAN | 0x1;

/// The tag for the boolean false.
pub const FALSE_VAL: u64 = QNAN | 0x2;

/// The tag for the boolean true.
pub const TRUE_VAL: u64 = QNAN | 0x3;

/// Tag space reserved for future heap object references: quiet NaN plus sign.
pub const OBJ_MASK: u64 = QNAN | SIGN_BIT;

/// A NaN-boxed scalar: one 64-bit word that encodes either a double-precision
/// number (any pattern outside the reserved quiet-NaN tag space), a boolean,
/// nil, or a reserved (unimplemented) object reference.
#[derive(Copy, Clone, Debug, PartialEq, Eq, Structural)]
pub struct Value(pub u64);

/// The logical type of a `Value`, recovered from its bit pattern.
#[derive(Copy, Clone, Debug, PartialEq, Eq, Structural)]
pub enum ValueType {
    Number,
    Boolean,
    Nil,
    Object,
}

pub open spec fn is_number_bits(b: u64) -> bool {
    b & QNAN != QNAN
}

pub open spec fn is_bool_bits(b: u64) -> bool {
    b == TRUE_VAL || b == FALSE_VAL
}

pub open spec fn is_nil_bits(b: u64) -> bool {
    b == NIL_VAL
}

pub open spec fn is_object_bits(b: u64) -> bool {
    b & OBJ_MASK == OBJ_MASK
}

/// The word that encodes a boolean.
pub open spec fn bool_bits(b: bool) -> u64 {
    if b {
        TRUE_VAL
    } else {
        FALSE_VAL
    }
}

/// Negation of a number is exactly a flip of the IEEE-754 sign bit.
pub open spec fn negate_bits(b: u64) -> u64 {
    b ^ SIGN_BIT
}

impl Value {
    pub open spec fn spec_is(self, value_type: ValueType) -> bool {
        match value_type {
            ValueType::Number => is_number_bits(self.0),
            ValueType::Boolean => is_bool_bits(self.0),
            ValueType::Nil => is_nil_bits(self.0),
            ValueType::Object => is_object_bits(self.0),
        }
    }

    /// Whether the bit pattern belongs to one of the four classes at all.
    /// Patterns inside the quiet-NaN mask that carry an unknown payload and
    /// no sign bit belong to none of them.
    pub open spec fn classifiable(self) -> bool {
        is_number_bits(self.0) || is_bool_bits(self.0) || is_nil_bits(self.0) || is_object_bits(
            self.0,
        )
    }

    /// The class of a classifiable pattern, ordered as the checks are made.
    pub open spec fn spec_type(self) -> ValueType {
        if is_number_bits(self.0) {
            ValueType::Number
        } else if is_bool_bits(self.0) {
            ValueType::Boolean
        } else if is_nil_bits(self.0) {
            ValueType::Nil
        } else {
            ValueType::Object
        }
    }

    pub fn is(&self, value_type: ValueType) -> (r: bool)
        ensures
            r == self.spec_is(value_type),
    {
        match value_type {
            ValueType::Number => self.0 & QNAN != QNAN,
            ValueType::Boolean => self.0 == TRUE_VAL || self.0 == FALSE_VAL,
            ValueType::Nil => self.0 == NIL_VAL,
            ValueType::Object => self.0 & OBJ_MASK == OBJ_MASK,
        }
    }

    pub fn get_type(&self) -> (t: ValueType)
        requires
            self.classifiable(),
        ensures
            t == self.spec_type(),
            self.spec_is(t),
    {
        if self.0 & QNAN != QNAN {
            ValueType::Number
        } else if self.0 == TRUE_VAL || self.0 == FALSE_VAL {
            ValueType::Boolean
        } else if self.0 == NIL_VAL {
            ValueType::Nil
        } else {
            ValueType::Object
        }
    }

    pub fn create_nil() -> (v: Value)
        ensures
            v.0 == NIL_VAL,
    {
        Value(NIL_VAL)
    }

    pub fn as_bool(&self) -> (r: bool)
        ensures
            r == (self.0 == TRUE_VAL),
    {
        self.0 == TRUE_VAL
    }

    pub fn as_object(&self) -> (r: u64)
        ensures
            r == self.0 & !OBJ_MASK,
    {
        self.0 & !OBJ_MASK
    }

    /// The raw 64-bit encoding; numbers are read back from it by callers
    /// that interpret the word as a double.
    pub fn bits(&self) -> (r: u64)
        ensures
            r == self.0,
    {
        self.0
    }
}

impl From<bool> for Value {
    fn from(value: bool) -> (v: Value) {
        Value(if value {
            TRUE_VAL
        } else {
            FALSE_VAL
        })
    }
}

impl vstd::std_specs::convert::FromSpecImpl<bool> for Value {
    open spec fn obeys_from_spec() -> bool {
        true
    }

    open spec fn from_spec(value: bool) -> Value {
        Value(bool_bits(value))
    }
}

/// The four value classes are pairwise disjoint, so two values of different
/// classes never have the same encoding: in particular a boolean and a
/// number, or nil and false, are never equal.  This is what makes the
/// type-agnostic equality of the machine safe: it returns false across
/// classes instead of confusing a tag with a number.
pub proof fn lemma_value_classes_disjoint(b: u64)
    ensures
        is_number_bits(b) ==> !is_bool_bits(b) && !is_nil_bits(b) && !is_object_bits(b),
        is_bool_bits(b) ==> !is_nil_bits(b) && !is_object_bits(b),
        is_nil_bits(b) ==> !is_object_bits(b),
{
    assert(is_number_bits(b) ==> !is_bool_bits(b) && !is_nil_bits(b) && !is_object_bits(b))
        by (bit_vector);
    assert(is_bool_bits(b) ==> !is_nil_bits(b) && !is_object_bits(b)) by (bit_vector);
    assert(is_nil_bits(b) ==> !is_object_bits(b)) by (bit_vector);
}

/// Values of different classes are never equal; equality on values is
/// equality of their encodings, so a cross-class comparison is always false.
pub proof fn lemma_cross_type_unequal(a: Value, b: Value, ta: ValueType, tb: ValueType)
    requires
        a.spec_is(ta),
        b.spec_is(tb),
        ta != tb,
    ensures
        a != b,
{
    if a == b {
        lemma_value_classes_disjoint(a.0);
    }
}

/// Negating twice restores the original word bit for bit, and negation
/// never moves a word into or out of the number class.
pub proof fn lemma_negate_involutive(b: u64)
    ensures
        negate_bits(negate_bits(b)) == b,
        is_number_bits(negate_bits(b)) == is_number_bits(b),
{
    assert((b ^ 0x8000000000000000) ^ 0x8000000000000000 == b) by (bit_vector);
    assert((b ^ 0x8000000000000000) & 0x7ffc000000000000 == b & 0x7ffc000000000000)
        by (bit_vector);
}

} // verus!
