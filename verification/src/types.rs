//! The value model: every datum, function and special operation of the
//! language is one variant of [`MalType`]; [`Value`] is its mathematical view.

use vstd::prelude::*;
use vstd::std_specs::cmp::PartialEqSpecImpl;

verus! {

/// Names one built-in operation. A handler is identified by its tag; the
/// evaluator dispatches on it.
#[derive(Clone, Copy, Debug, PartialEq, Eq, Structural)]
pub enum Native {
    Def,
    Let,
    Do,
    If,
    Lambda,
    PrStr,
    Str,
    Prn,
    Println,
    List,
    IsList,
    IsEmpty,
    Count,
    Add,
    Sub,
    Mul,
    Div,
    Equal,
    Less,
    LessEq,
    Greater,
    GreaterEq,
}

/// A built-in operation together with the name it is registered under.
#[derive(Debug)]
pub struct MalExpr {
    pub symbol: String,
    pub arguments: usize,
    pub inner: Native,
}

/// A user-defined function: body, parameter pattern, the scope it was
/// created in, and the identity it was given at creation.
#[derive(Debug)]
pub struct MalFn {
    pub expr: Box<MalType>,
    pub captured_args: Box<MalType>,
    pub captured_env: usize,
    pub id: u64,
}

/// A library function: the operation and the (empty) parameter pattern
/// its call scope is derived with.
#[derive(Debug)]
pub struct MalLibFn {
    pub expr: Box<MalExpr>,
    pub captured_env: Box<MalType>,
}

#[derive(Debug)]
pub enum MalType {
    List(Vec<MalType>),
    HashMap(Vec<MalType>),
    Vector(Vec<MalType>),
    String(String),
    Symbol(String),
    Number(i64),
    Bool(bool),
    Nil,
    Bind(MalExpr),
    BinOp(MalExpr),
    Fn(MalFn),
    LibFn(MalLibFn),
}

/// Mathematical view of a [`MalExpr`].
pub ghost struct ExprView {
    pub symbol: Seq<char>,
    pub arguments: nat,
    pub inner: Native,
}

/// Mathematical view of a [`MalType`].
pub ghost enum Value {
    List(Seq<Value>),
    HashMap(Seq<Value>),
    Vector(Seq<Value>),
    String(Seq<char>),
    Symbol(Seq<char>),
    Number(i64),
    Bool(bool),
    Nil,
    Bind(ExprView),
    BinOp(ExprView),
    Fn { body: Box<Value>, params: Box<Value>, scope: nat, id: nat },
    LibFn { expr: ExprView, pattern: Box<Value> },
}

impl View for MalExpr {
    type V = ExprView;

    open spec fn view(&self) -> ExprView {
        ExprView { symbol: self.symbol@, arguments: self.arguments as nat, inner: self.inner }
    }
}

/// The view of each element of `items`, in order.
pub open spec fn values_of(items: Seq<MalType>) -> Seq<Value>
    decreases items,
{
    Seq::new(
        items.len(),
        |i: int|
            if 0 <= i < items.len() {
                value_of(items[i])
            } else {
                Value::Nil
            },
    )
}

/// The view of one value.
pub open spec fn value_of(m: MalType) -> Value
    decreases m,
{
    match m {
        MalType::List(v) => Value::List(values_of(v@)),
        MalType::HashMap(v) => Value::HashMap(values_of(v@)),
        MalType::Vector(v) => Value::Vector(values_of(v@)),
        MalType::String(s) => Value::String(s@),
        MalType::Symbol(s) => Value::Symbol(s@),
        MalType::Number(n) => Value::Number(n),
        MalType::Bool(b) => Value::Bool(b),
        MalType::Nil => Value::Nil,
        MalType::Bind(e) => Value::Bind(e@),
        MalType::BinOp(e) => Value::BinOp(e@),
        MalType::Fn(f) => Value::Fn {
            body: Box::new(value_of(*f.expr)),
            params: Box::new(value_of(*f.captured_args)),
            scope: f.captured_env as nat,
            id: f.id as nat,
        },
        MalType::LibFn(f) => Value::LibFn {
            expr: f.expr@,
            pattern: Box::new(value_of(*f.captured_env)),
        },
    }
}

impl View for MalType {
    type V = Value;

    open spec fn view(&self) -> Value {
        value_of(*self)
    }
}


impl Value {
    /// The equality of the language: collections of one kind compare
    /// element by element, text, numbers and booleans by content, user
    /// functions by identity, and every other pair by kind alone.
    pub open spec fn equal(self, other: Value) -> bool
        decreases self,
    {
        match (self, other) {
            (Value::List(x), Value::List(y)) => Value::equal_items(x, y),
            (Value::HashMap(x), Value::HashMap(y)) => Value::equal_items(x, y),
            (Value::Vector(x), Value::Vector(y)) => Value::equal_items(x, y),
            (Value::String(x), Value::String(y)) => x == y,
            (Value::Symbol(x), Value::Symbol(y)) => x == y,
            (Value::Number(x), Value::Number(y)) => x == y,
            (Value::Bool(x), Value::Bool(y)) => x == y,
            (Value::Nil, Value::Nil) => true,
            (Value::Bind(_), Value::Bind(_)) => true,
            (Value::BinOp(_), Value::BinOp(_)) => true,
            (Value::LibFn { .. }, Value::LibFn { .. }) => true,
            (Value::Fn { id: x, .. }, Value::Fn { id: y, .. }) => x == y,
            _ => false,
        }
    }

    /// Two sequences are equal when they are as long as each other and
    /// equal position by position.
    pub open spec fn equal_items(x: Seq<Value>, y: Seq<Value>) -> bool
        decreases x,
    {
        if x.len() != y.len() {
            false
        } else if x.len() == 0 {
            true
        } else {
            Value::equal_items(x.drop_last(), y.drop_last()) && x.last().equal(y.last())
        }
    }

    /// Sequences that differ on a prefix differ as a whole.
    pub proof fn lemma_unequal_prefix(x: Seq<Value>, y: Seq<Value>, n: int)
        requires
            x.len() == y.len(),
            0 <= n <= x.len(),
            !Value::equal_items(x.take(n), y.take(n)),
        ensures
            !Value::equal_items(x, y),
        decreases x.len() - n,
    {
        if n < x.len() {
            assert(x.take(n + 1).drop_last() == x.take(n));
            assert(y.take(n + 1).drop_last() == y.take(n));
            Value::lemma_unequal_prefix(x, y, n + 1);
        } else {
            assert(x.take(n) == x && y.take(n) == y);
        }
    }

    /// Whether every map in the value, at any depth, has an even number
    /// of elements: keys and values in turn.
    pub open spec fn even_maps(self) -> bool
        decreases self,
    {
        match self {
            Value::List(items) => Value::all_even_maps(items),
            Value::Vector(items) => Value::all_even_maps(items),
            Value::HashMap(items) => items.len() % 2 == 0 && Value::all_even_maps(items),
            Value::Fn { body, params, .. } => body.even_maps() && params.even_maps(),
            Value::LibFn { pattern, .. } => pattern.even_maps(),
            _ => true,
        }
    }

    /// Whether every map in every element has an even number of elements.
    pub open spec fn all_even_maps(items: Seq<Value>) -> bool
        decreases items,
    {
        items.len() == 0 || (Value::all_even_maps(items.drop_last()) && items.last().even_maps())
    }

    /// One more value in front keeps the maps even exactly if its own are.
    pub proof fn lemma_even_maps_with_first(v: Value, rest: Seq<Value>)
        ensures
            Value::all_even_maps(seq![v] + rest) == (v.even_maps() && Value::all_even_maps(rest)),
        decreases rest.len(),
    {
        let all = seq![v] + rest;
        if rest.len() == 0 {
            assert(all.drop_last() =~= Seq::<Value>::empty());
            assert(all.last() == v);
            assert(Value::all_even_maps(all.drop_last()));
        } else {
            Value::lemma_even_maps_with_first(v, rest.drop_last());
            assert(all.drop_last() =~= seq![v] + rest.drop_last());
            assert(all.last() == rest.last());
        }
    }

    /// Whether the value is the symbol spelled `name`.
    pub open spec fn is_symbol(self, name: Seq<char>) -> bool {
        self == Value::Symbol(name)
    }
}

impl Clone for MalExpr {
    fn clone(&self) -> (r: Self)
        ensures
            r@ == self@,
    {
        MalExpr { symbol: self.symbol.clone(), arguments: self.arguments, inner: self.inner }
    }
}

/// A copy of every element of `items`, in order.
pub fn clone_items(items: &[MalType]) -> (r: Vec<MalType>)
    ensures
        values_of(r@) == values_of(items@),
    decreases items@,
{
    let mut out: Vec<MalType> = Vec::new();
    let mut i: usize = 0;
    while i < items.len()
        invariant
            i <= items.len(),
            out.len() == i,
            forall|j: int| 0 <= j < i ==> out@[j]@ == items@[j]@,
        decreases items.len() - i,
    {
        let item = items[i].duplicate();
        out.push(item);
        i += 1;
    }
    assert(values_of(out@) =~= values_of(items@));
    out
}

impl MalType {
    /// A deep copy with the same view.
    pub fn duplicate(&self) -> (r: MalType)
        ensures
            r@ == self@,
        decreases self,
    {
        match self {
            MalType::List(v) => MalType::List(clone_items(v.as_slice())),
            MalType::HashMap(v) => MalType::HashMap(clone_items(v.as_slice())),
            MalType::Vector(v) => MalType::Vector(clone_items(v.as_slice())),
            MalType::String(s) => MalType::String(s.clone()),
            MalType::Symbol(s) => MalType::Symbol(s.clone()),
            MalType::Number(n) => MalType::Number(*n),
            MalType::Bool(b) => MalType::Bool(*b),
            MalType::Nil => MalType::Nil,
            MalType::Bind(e) => MalType::Bind(e.clone()),
            MalType::BinOp(e) => MalType::BinOp(e.clone()),
            MalType::Fn(f) => MalType::Fn(
                MalFn {
                    expr: Box::new(f.expr.duplicate()),
                    captured_args: Box::new(f.captured_args.duplicate()),
                    captured_env: f.captured_env,
                    id: f.id,
                },
            ),
            MalType::LibFn(f) => MalType::LibFn(
                MalLibFn {
                    expr: Box::new((*f.expr).clone()),
                    captured_env: Box::new(f.captured_env.duplicate()),
                },
            ),
        }
    }
}

impl Clone for MalFn {
    fn clone(&self) -> (r: Self)
        ensures
            MalType::Fn(r)@ == MalType::Fn(*self)@,
    {
        MalFn {
            expr: Box::new(self.expr.duplicate()),
            captured_args: Box::new(self.captured_args.duplicate()),
            captured_env: self.captured_env,
            id: self.id,
        }
    }
}

impl Clone for MalLibFn {
    fn clone(&self) -> (r: Self)
        ensures
            MalType::LibFn(r)@ == MalType::LibFn(*self)@,
    {
        MalLibFn {
            expr: Box::new((*self.expr).clone()),
            captured_env: Box::new(self.captured_env.duplicate()),
        }
    }
}

impl Clone for MalType {
    fn clone(&self) -> (r: Self)
        ensures
            r@ == self@,
    {
        self.duplicate()
    }
}


/// Whether `x` and `y` are equal position by position.
pub fn same_items(x: &[MalType], y: &[MalType]) -> (r: bool)
    ensures
        r == Value::equal_items(values_of(x@), values_of(y@)),
    decreases x@,
{
    let ghost xs = values_of(x@);
    let ghost ys = values_of(y@);
    if x.len() != y.len() {
        return false;
    }
    let mut i: usize = 0;
    while i < x.len()
        invariant
            i <= x.len(),
            x.len() == y.len(),
            xs == values_of(x@),
            ys == values_of(y@),
            Value::equal_items(xs.take(i as int), ys.take(i as int)),
        decreases x.len() - i,
    {
        let here = x[i].same(&y[i]);
        proof {
            assert(xs.take(i + 1).drop_last() == xs.take(i as int));
            assert(ys.take(i + 1).drop_last() == ys.take(i as int));
            if !here {
                Value::lemma_unequal_prefix(xs, ys, i + 1);
            }
        }
        if !here {
            return false;
        }
        i += 1;
    }
    assert(xs.take(i as int) == xs && ys.take(i as int) == ys);
    true
}

impl MalType {
    /// The equality of the language, decided on the values themselves.
    pub fn same(&self, other: &MalType) -> (r: bool)
        ensures
            r == self@.equal(other@),
        decreases self,
    {
        match (self, other) {
            (MalType::List(x), MalType::List(y)) => same_items(x.as_slice(), y.as_slice()),
            (MalType::HashMap(x), MalType::HashMap(y)) => same_items(x.as_slice(), y.as_slice()),
            (MalType::Vector(x), MalType::Vector(y)) => same_items(x.as_slice(), y.as_slice()),
            (MalType::String(x), MalType::String(y)) => *x == *y,
            (MalType::Symbol(x), MalType::Symbol(y)) => *x == *y,
            (MalType::Number(x), MalType::Number(y)) => *x == *y,
            (MalType::Bool(x), MalType::Bool(y)) => *x == *y,
            (MalType::Nil, MalType::Nil) => true,
            (MalType::Bind(_), MalType::Bind(_)) => true,
            (MalType::BinOp(_), MalType::BinOp(_)) => true,
            (MalType::LibFn(_), MalType::LibFn(_)) => true,
            (MalType::Fn(f), MalType::Fn(g)) => f.id == g.id,
            _ => false,
        }
    }

    /// Whether the value is the symbol spelled `name`.
    pub fn is_symbol(&self, name: &str) -> (r: bool)
        ensures
            r == self@.is_symbol(name@),
    {
        match self {
            MalType::Symbol(s) => {
                let wanted = String::from_str(name);
                *s == wanted
            },
            _ => false,
        }
    }
}

impl PartialEq for MalType {
    fn eq(&self, other: &Self) -> (r: bool) {
        self.same(other)
    }
}

impl PartialEqSpecImpl for MalType {
    open spec fn obeys_eq_spec() -> bool {
        true
    }

    open spec fn eq_spec(&self, other: &Self) -> bool {
        self@.equal(other@)
    }
}

/// The three kinds of collection a reader can open.
#[derive(Clone, Copy, Debug, PartialEq, Eq, Structural)]
pub enum MalCollection {
    HashMap,
    List,
    Vector,
}

impl MalCollection {
    /// The character that opens a collection of this kind.
    pub open spec fn opener(self) -> char {
        match self {
            MalCollection::HashMap => '{',
            MalCollection::List => '(',
            MalCollection::Vector => '[',
        }
    }

    /// The character that closes a collection of this kind.
    pub open spec fn closer(self) -> char {
        match self {
            MalCollection::HashMap => '}',
            MalCollection::List => ')',
            MalCollection::Vector => ']',
        }
    }

    /// The collection of this kind that holds `items`.
    pub open spec fn wrap(self, items: Seq<Value>) -> Value {
        match self {
            MalCollection::HashMap => Value::HashMap(items),
            MalCollection::List => Value::List(items),
            MalCollection::Vector => Value::Vector(items),
        }
    }

    /// The kind that the opening delimiter `value` starts.
    pub fn get(value: &str) -> (r: Self)
        requires
            value@ == seq!['{'] || value@ == seq!['('] || value@ == seq!['['],
        ensures
            value@ == seq![r.opener()],
    {
        let c = value.get_char(0);
        if c == '{' {
            MalCollection::HashMap
        } else if c == '(' {
            MalCollection::List
        } else {
            MalCollection::Vector
        }
    }

    pub fn start(&self) -> (r: &'static str)
        ensures
            r@ == seq![self.opener()],
    {
        proof {
            reveal_strlit("{");
            reveal_strlit("(");
            reveal_strlit("[");
        }
        let r = match self {
            MalCollection::HashMap => "{",
            MalCollection::List => "(",
            MalCollection::Vector => "[",
        };
        assert(r@ =~= seq![self.opener()]);
        r
    }

    pub fn end(&self) -> (r: &'static str)
        ensures
            r@ == seq![self.closer()],
    {
        proof {
            reveal_strlit("}");
            reveal_strlit(")");
            reveal_strlit("]");
        }
        let r = match self {
            MalCollection::HashMap => "}",
            MalCollection::List => ")",
            MalCollection::Vector => "]",
        };
        assert(r@ =~= seq![self.closer()]);
        r
    }

    /// The collection of this kind that holds `data`. A map holds keys and
    /// values in turn, so an even number of elements.
    pub fn into(self, data: Vec<MalType>) -> (r: MalType)
        requires
            self is HashMap ==> data.len() % 2 == 0,
        ensures
            r@ == self.wrap(values_of(data@)),
    {
        match self {
            MalCollection::HashMap => MalType::HashMap(data),
            MalCollection::List => MalType::List(data),
            MalCollection::Vector => MalType::Vector(data),
        }
    }
}


/// The quotient of two integers, rounded toward zero.
pub open spec fn quotient(a: int, b: int) -> int
    recommends
        b != 0,
{
    if a >= 0 && b > 0 {
        a / b
    } else if a < 0 && b > 0 {
        -((-a) / b)
    } else if a >= 0 && b < 0 {
        -(a / (-b))
    } else {
        (-a) / (-b)
    }
}

/// The quotient as a 64-bit number; the one quotient that does not fit
/// wraps around.
pub open spec fn wrapping_quotient(a: i64, b: i64) -> i64
    recommends
        b != 0,
{
    if a == i64::MIN && b == -1 {
        i64::MIN
    } else {
        quotient(a as int, b as int) as i64
    }
}

fn divide(a: i64, b: i64) -> (r: i64)
    requires
        b != 0,
    ensures
        r == wrapping_quotient(a, b),
{
    if a == i64::MIN && b == -1 {
        return i64::MIN;
    }
    let x: i128 = a as i128;
    let y: i128 = b as i128;
    let ax: i128 = if x < 0 {
        -x
    } else {
        x
    };
    let ay: i128 = if y < 0 {
        -y
    } else {
        y
    };
    let q: i128 = ax / ay;
    assert(0 <= q <= ax) by (nonlinear_arith)
        requires
            q == ax / ay,
            ax >= 0,
            ay >= 1,
    ;
    assert(ay >= 2 ==> 2 * q <= ax) by (nonlinear_arith)
        requires
            q == ax / ay,
            ax >= 0,
            ay >= 1,
    ;
    let signed: i128 = if (x < 0) != (y < 0) {
        -q
    } else {
        q
    };
    signed as i64
}

impl MalType {
    /// The sum of two numbers, wrapping around at the ends of 64 bits.
    pub fn add(&self, rhs: &MalType) -> (r: MalType)
        requires
            self is Number,
            rhs is Number,
        ensures
            r@ == Value::Number(self@->Number_0.wrapping_add(rhs@->Number_0)),
    {
        match (self, rhs) {
            (MalType::Number(n1), MalType::Number(n2)) => MalType::Number(n1.wrapping_add(*n2)),
            _ => MalType::Nil,
        }
    }

    /// The difference of two numbers, wrapping around at the ends of 64
    /// bits.
    pub fn sub(&self, rhs: &MalType) -> (r: MalType)
        requires
            self is Number,
            rhs is Number,
        ensures
            r@ == Value::Number(self@->Number_0.wrapping_sub(rhs@->Number_0)),
    {
        match (self, rhs) {
            (MalType::Number(n1), MalType::Number(n2)) => MalType::Number(n1.wrapping_sub(*n2)),
            _ => MalType::Nil,
        }
    }

    /// The product of two numbers, wrapping around at the ends of 64 bits.
    pub fn mul(&self, rhs: &MalType) -> (r: MalType)
        requires
            self is Number,
            rhs is Number,
        ensures
            r@ == Value::Number(self@->Number_0.wrapping_mul(rhs@->Number_0)),
    {
        match (self, rhs) {
            (MalType::Number(n1), MalType::Number(n2)) => MalType::Number(n1.wrapping_mul(*n2)),
            _ => MalType::Nil,
        }
    }

    /// The quotient of two numbers, rounded toward zero.
    pub fn div(&self, rhs: &MalType) -> (r: MalType)
        requires
            self is Number,
            rhs is Number,
            rhs@->Number_0 != 0,
        ensures
            r@ == Value::Number(wrapping_quotient(self@->Number_0, rhs@->Number_0)),
    {
        match (self, rhs) {
            (MalType::Number(n1), MalType::Number(n2)) => MalType::Number(divide(*n1, *n2)),
            _ => MalType::Nil,
        }
    }
}

} // verus!
