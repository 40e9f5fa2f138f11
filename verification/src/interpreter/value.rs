use vstd::prelude::*;

verus! {

/// One element of the interpreter's stack: either a concrete integer or a
/// symbolic expression tree over tagged unknowns.
#[derive(Debug, PartialEq)]
pub enum StackValue {
    /// A concrete integer.
    Const(i32),
    /// A symbolic tree whose value is only known at run time.
    Dynamic(DynamicValue),
}

/// A symbolic expression tree.
///
/// Leaves are tagged unknowns introduced by input or by branch
/// materialization; inner nodes are the three arithmetic operators. A tree is
/// never eagerly simplified: the interpreter folds an operation only when
/// both operands are concrete, so every node here stands for a run-time
/// computation.
#[derive(Debug, PartialEq)]
pub enum DynamicValue {
    /// An opaque unknown, identified by a dense tag.
    Tagged(usize),
    /// Symbolic addition.
    Add(Box<StackValue>, Box<StackValue>),
    /// Symbolic multiplication.
    Mul(Box<StackValue>, Box<StackValue>),
    /// Symbolic subtraction.
    Sub(Box<StackValue>, Box<StackValue>),
}

impl StackValue {
    /// Builds the symbolic sum of two stack values, without simplification.
    pub fn add(lhs: Self, rhs: Self) -> (r: Self)
        ensures
            r == StackValue::Dynamic(DynamicValue::Add(Box::new(lhs), Box::new(rhs))),
    {
        StackValue::Dynamic(DynamicValue::Add(Box::new(lhs), Box::new(rhs)))
    }

    /// Builds the symbolic product of two stack values, without
    /// simplification.
    pub fn mul(lhs: Self, rhs: Self) -> (r: Self)
        ensures
            r == StackValue::Dynamic(DynamicValue::Mul(Box::new(lhs), Box::new(rhs))),
    {
        StackValue::Dynamic(DynamicValue::Mul(Box::new(lhs), Box::new(rhs)))
    }

    /// Builds the symbolic difference of two stack values, without
    /// simplification.
    pub fn sub(lhs: Self, rhs: Self) -> (r: Self)
        ensures
            r == StackValue::Dynamic(DynamicValue::Sub(Box::new(lhs), Box::new(rhs))),
    {
        StackValue::Dynamic(DynamicValue::Sub(Box::new(lhs), Box::new(rhs)))
    }

    /// A structurally equal copy of this value.
    pub fn duplicate(&self) -> (r: Self)
        ensures
            r == *self,
        decreases *self,
    {
        match self {
            StackValue::Const(i) => StackValue::Const(*i),
            StackValue::Dynamic(d) => StackValue::Dynamic(d.duplicate()),
        }
    }
}

impl DynamicValue {
    /// A structurally equal copy of this tree.
    pub fn duplicate(&self) -> (r: Self)
        ensures
            r == *self,
        decreases *self,
    {
        match self {
            DynamicValue::Tagged(t) => DynamicValue::Tagged(*t),
            DynamicValue::Add(l, r) => DynamicValue::Add(
                Box::new(l.duplicate()),
                Box::new(r.duplicate()),
            ),
            DynamicValue::Mul(l, r) => DynamicValue::Mul(
                Box::new(l.duplicate()),
                Box::new(r.duplicate()),
            ),
            DynamicValue::Sub(l, r) => DynamicValue::Sub(
                Box::new(l.duplicate()),
                Box::new(r.duplicate()),
            ),
        }
    }
}

impl From<i32> for StackValue {
    fn from(value: i32) -> (r: Self) {
        StackValue::Const(value)
    }
}

impl vstd::std_specs::convert::FromSpecImpl<i32> for StackValue {
    open spec fn obeys_from_spec() -> bool {
        true
    }

    open spec fn from_spec(value: i32) -> Self {
        StackValue::Const(value)
    }
}

/// The result the interpreter pushes for `+`: the wrapped sum when both
/// operands are concrete, and the unsimplified symbolic sum otherwise.
pub open spec fn apply_add(lhs: StackValue, rhs: StackValue) -> StackValue {
    match (lhs, rhs) {
        (StackValue::Const(a), StackValue::Const(b)) => StackValue::Const(a.wrapping_add(b)),
        _ => StackValue::Dynamic(DynamicValue::Add(Box::new(lhs), Box::new(rhs))),
    }
}

/// The result the interpreter pushes for `*`: the wrapped product when both
/// operands are concrete, and the unsimplified symbolic product otherwise.
pub open spec fn apply_mul(lhs: StackValue, rhs: StackValue) -> StackValue {
    match (lhs, rhs) {
        (StackValue::Const(a), StackValue::Const(b)) => StackValue::Const(a.wrapping_mul(b)),
        _ => StackValue::Dynamic(DynamicValue::Mul(Box::new(lhs), Box::new(rhs))),
    }
}

/// The result the interpreter pushes for `-`: the wrapped difference when
/// both operands are concrete, and the unsimplified symbolic difference
/// otherwise. The first operand is the one popped first, so the top of the
/// stack is the minuend.
pub open spec fn apply_sub(lhs: StackValue, rhs: StackValue) -> StackValue {
    match (lhs, rhs) {
        (StackValue::Const(a), StackValue::Const(b)) => StackValue::Const(a.wrapping_sub(b)),
        _ => StackValue::Dynamic(DynamicValue::Sub(Box::new(lhs), Box::new(rhs))),
    }
}

/// Combines two popped operands for `+`, folding exactly when both are
/// concrete.
pub fn fold_add(lhs: StackValue, rhs: StackValue) -> (r: StackValue)
    ensures
        r == apply_add(lhs, rhs),
{
    match (lhs, rhs) {
        (StackValue::Const(a), StackValue::Const(b)) => StackValue::Const(a.wrapping_add(b)),
        (lhs, rhs) => StackValue::add(lhs, rhs),
    }
}

/// Combines two popped operands for `*`, folding exactly when both are
/// concrete.
pub fn fold_mul(lhs: StackValue, rhs: StackValue) -> (r: StackValue)
    ensures
        r == apply_mul(lhs, rhs),
{
    match (lhs, rhs) {
        (StackValue::Const(a), StackValue::Const(b)) => StackValue::Const(a.wrapping_mul(b)),
        (lhs, rhs) => StackValue::mul(lhs, rhs),
    }
}

/// Combines two popped operands for `-`, folding exactly when both are
/// concrete; the first operand is the one popped first.
pub fn fold_sub(lhs: StackValue, rhs: StackValue) -> (r: StackValue)
    ensures
        r == apply_sub(lhs, rhs),
{
    match (lhs, rhs) {
        (StackValue::Const(a), StackValue::Const(b)) => StackValue::Const(a.wrapping_sub(b)),
        (lhs, rhs) => StackValue::sub(lhs, rhs),
    }
}

/// Constant folding for `+`: on two concrete operands whose exact sum fits
/// in the cell type, the interpreter pushes exactly that sum, and no
/// symbolic node is built.
pub proof fn lemma_add_folds_constants(a: i32, b: i32)
    requires
        i32::MIN <= a + b <= i32::MAX,
    ensures
        apply_add(StackValue::Const(a), StackValue::Const(b)) == StackValue::Const((a + b) as i32),
        apply_add(StackValue::Const(a), StackValue::Const(b)) is Const,
{
}

/// Constant folding for `*`: on two concrete operands whose exact product
/// fits in the cell type, the interpreter pushes exactly that product, and no
/// symbolic node is built.
pub proof fn lemma_mul_folds_constants(a: i32, b: i32)
    requires
        i32::MIN <= a * b <= i32::MAX,
    ensures
        apply_mul(StackValue::Const(a), StackValue::Const(b)) == StackValue::Const((a * b) as i32),
        apply_mul(StackValue::Const(a), StackValue::Const(b)) is Const,
{
    let x = a * b;
    let range = 0x1_0000_0000int;
    if x >= 0 {
        vstd::arithmetic::div_mod::lemma_small_mod(x as nat, range as nat);
    } else {
        vstd::arithmetic::div_mod::lemma_mod_add_multiples_vanish(x, range);
        vstd::arithmetic::div_mod::lemma_small_mod((x + range) as nat, range as nat);
    }
}

/// Constant folding for `-`: on two concrete operands whose exact difference
/// fits in the cell type, the interpreter pushes exactly that difference, and
/// no symbolic node is built. The minuend is the value popped first.
pub proof fn lemma_sub_folds_constants(a: i32, b: i32)
    requires
        i32::MIN <= a - b <= i32::MAX,
    ensures
        apply_sub(StackValue::Const(a), StackValue::Const(b)) == StackValue::Const((a - b) as i32),
        apply_sub(StackValue::Const(a), StackValue::Const(b)) is Const,
{
}

} // verus!
