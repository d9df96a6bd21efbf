//! Lexical scopes. An [`Environment`] owns every scope that was ever made,
//! each with a link to the scope it was made in, and a cursor on the scope
//! that evaluation currently runs in. The names of the built-in library
//! stand in a table of their own that is looked at first.

use crate::error::{EvalError, Failure};
use crate::expr::Expressions;
use crate::library::with_library;
use crate::types::{clone_items, values_of, MalType, Value};
use vstd::prelude::*;
use vstd::slice::slice_subrange;

verus! {

/// How deep applications may nest in an environment made by
/// [`Environment::new`]. The language itself sets no bound: it is there so
/// that evaluation always ends. A program that wants another bound makes
/// its environment with [`Environment::with_depth`].
pub const DEFAULT_DEPTH: usize = 500;

/// One scope: its bindings and the scope around it.
#[derive(Debug)]
pub struct InnerEnv {
    outer: Option<usize>,
    expressions: Expressions,
}

/// Mathematical view of one scope.
pub ghost struct ScopeView {
    pub outer: Option<nat>,
    pub vars: Map<Seq<char>, Value>,
}

impl View for InnerEnv {
    type V = ScopeView;

    closed spec fn view(&self) -> ScopeView {
        ScopeView {
            outer: match self.outer {
                Some(j) => Some(j as nat),
                None => None,
            },
            vars: self.expressions@,
        }
    }
}

/// Mathematical view of an [`Environment`].
pub ghost struct EnvView {
    /// Every scope, in the order of creation.
    pub scopes: Seq<ScopeView>,
    /// The scope that evaluation runs in.
    pub current: nat,
    /// The built-in library.
    pub defaults: Map<Seq<char>, Value>,
    /// The identity that the next user function gets.
    pub next_id: nat,
    /// The lines printed so far and not yet taken.
    pub output: Seq<Seq<char>>,
}

impl EnvView {
    /// The environment that evaluation starts in: one empty scope and the
    /// library.
    pub open spec fn initial() -> EnvView {
        EnvView {
            scopes: seq![ScopeView { outer: None, vars: Map::empty() }],
            current: 0,
            defaults: with_library(Map::empty()),
            next_id: 0,
            output: Seq::empty(),
        }
    }

    /// What scope `i` and the scopes around it bind `name` to, innermost
    /// first.
    pub open spec fn chain_lookup(self, i: nat, name: Seq<char>) -> Option<Value>
        decreases i,
    {
        if i >= self.scopes.len() {
            None
        } else if self.scopes[i as int].vars.contains_key(name) {
            Some(self.scopes[i as int].vars[name])
        } else {
            match self.scopes[i as int].outer {
                Some(j) => if j < i {
                    self.chain_lookup(j, name)
                } else {
                    None
                },
                None => None,
            }
        }
    }

    /// What `name` stands for: the library first, then the current scope
    /// and the scopes around it. Because the library comes first, no
    /// binding in any scope can stand in for one of its names.
    pub open spec fn lookup(self, name: Seq<char>) -> Option<Value> {
        if self.defaults.contains_key(name) {
            Some(self.defaults[name])
        } else {
            self.chain_lookup(self.current, name)
        }
    }

    /// The environment with `name` bound to `v` in the current scope.
    pub open spec fn bind(self, name: Seq<char>, v: Value) -> EnvView {
        if self.current < self.scopes.len() {
            let scope = self.scopes[self.current as int];
            EnvView {
                scopes: self.scopes.update(
                    self.current as int,
                    ScopeView { outer: scope.outer, vars: scope.vars.insert(name, v) },
                ),
                ..self
            }
        } else {
            self
        }
    }

    /// The environment with one more scope, inside `outer` and with the
    /// bindings `vars`. The cursor stays.
    pub open spec fn derived(self, outer: nat, vars: Map<Seq<char>, Value>) -> EnvView {
        EnvView { scopes: self.scopes.push(ScopeView { outer: Some(outer), vars }), ..self }
    }

    /// The environment with the cursor on scope `id`.
    pub open spec fn focused(self, id: nat) -> EnvView {
        EnvView { current: id, ..self }
    }

    /// The environment inside a new empty scope within the current one.
    pub open spec fn entered(self) -> EnvView {
        self.derived(self.current, Map::empty()).focused(self.scopes.len())
    }

    /// The environment with the cursor moved to the scope around the
    /// current one, if there is one. The scope around a scope was made
    /// before it.
    pub open spec fn exited(self) -> EnvView {
        if self.current < self.scopes.len() {
            match self.scopes[self.current as int].outer {
                Some(j) => if j < self.current {
                    self.focused(j)
                } else {
                    self
                },
                None => self,
            }
        } else {
            self
        }
    }

    /// The environment without the scopes from number `len` on, if no
    /// user function was made since the next identity was `id`: then
    /// nothing can still refer to them. Else the environment as it is.
    pub open spec fn released(self, len: nat, id: nat) -> EnvView {
        if self.next_id == id && id < u64::MAX && len <= self.scopes.len() {
            EnvView { scopes: self.scopes.take(len as int), ..self }
        } else {
            self
        }
    }

    /// Whether the cursor is on a scope that exists. Every environment
    /// that the library makes is well formed, every function that takes
    /// one asks for that, and every function that changes one keeps it.
    pub open spec fn well_formed(self) -> bool {
        self.current < self.scopes.len()
    }

    /// Whether `later` can come of this environment by evaluation: the
    /// cursor is where it was, the library is unchanged, and every scope
    /// of this environment is still there, inside the scope it was in.
    pub open spec fn leads_to(self, later: EnvView) -> bool {
        &&& later.current == self.current
        &&& later.defaults == self.defaults
        &&& self.scopes.len() <= later.scopes.len()
        &&& forall|i: int|
            0 <= i < self.scopes.len() ==> (#[trigger] later.scopes[i]).outer
                == self.scopes[i].outer
    }

    /// The environment with one more line printed.
    pub open spec fn printed(self, line: Seq<char>) -> EnvView {
        EnvView { output: self.output.push(line), ..self }
    }

    /// The environment after one identity was given out.
    pub open spec fn numbered(self) -> EnvView {
        EnvView {
            next_id: if self.next_id < u64::MAX {
                self.next_id + 1
            } else {
                self.next_id
            },
            ..self
        }
    }
}

/// The name of the symbol that marks the rest parameter.
pub open spec fn rest_marker() -> Seq<char> {
    seq!['&']
}

/// The failure of a parameter pattern that cannot be bound.
pub open spec fn bad_pattern(pattern: Value) -> Failure {
    Failure::TypeMismatch("fn*"@, seq![pattern])
}

/// `acc` with the parameters from `i` on bound to the arguments at the
/// same positions. The symbol behind a `&` takes the list of all
/// arguments from its position on, and ends the binding. Where a name
/// occurs twice among the parameters, the later binding stands.
pub open spec fn bind_from(
    pattern: Value,
    params: Seq<Value>,
    args: Seq<Value>,
    i: int,
    acc: Map<Seq<char>, Value>,
) -> Result<Map<Seq<char>, Value>, Failure>
    recommends
        0 <= i <= args.len(),
    decreases params.len() - i,
{
    if i < 0 || i >= params.len() {
        Ok(acc)
    } else {
        match params[i] {
            Value::Symbol(name) => if name == rest_marker() {
                if i + 1 < params.len() && params[i + 1] is Symbol {
                    Ok(acc.insert(params[i + 1]->Symbol_0, Value::List(args.skip(i))))
                } else {
                    Err(bad_pattern(pattern))
                }
            } else if i >= args.len() {
                Err(Failure::ArityMismatch)
            } else {
                bind_from(pattern, params, args, i + 1, acc.insert(name, args[i]))
            },
            _ => Err(bad_pattern(pattern)),
        }
    }
}

/// The bindings that a call with the arguments `args` gives to the
/// parameter pattern `pattern`, a list of symbols.
pub open spec fn bind_params(pattern: Value, args: Seq<Value>) -> Result<
    Map<Seq<char>, Value>,
    Failure,
> {
    match pattern {
        Value::List(params) => bind_from(pattern, params, args, 0, Map::empty()),
        _ => Err(bad_pattern(pattern)),
    }
}

/// The scopes of evaluation and what goes with them.
#[derive(Debug)]
pub struct Environment {
    scopes: Vec<InnerEnv>,
    current: usize,
    default_ns: Expressions,
    depth: usize,
    next_id: u64,
    output: Vec<String>,
}

/// The view of each scope, in order.
pub closed spec fn scopes_of(scopes: Seq<InnerEnv>) -> Seq<ScopeView> {
    Seq::new(scopes.len(), |i: int| scopes[i]@)
}

/// The text of each line, in order.
pub open spec fn lines_of(lines: Seq<String>) -> Seq<Seq<char>> {
    Seq::new(lines.len(), |i: int| lines[i]@)
}

impl View for Environment {
    type V = EnvView;

    closed spec fn view(&self) -> EnvView {
        EnvView {
            scopes: scopes_of(self.scopes@),
            current: self.current as nat,
            defaults: self.default_ns@,
            next_id: self.next_id as nat,
            output: lines_of(self.output@),
        }
    }
}

fn bad_pattern_error(pattern: &MalType) -> (e: EvalError)
    ensures
        e@ == bad_pattern(pattern@),
{
    let mut operands: Vec<MalType> = Vec::new();
    operands.push(pattern.clone());
    assert(values_of(operands@) =~= seq![pattern@]);
    EvalError::TypeMismatch(String::from_str("fn*"), operands)
}

impl InnerEnv {
    fn new(expressions: Expressions) -> (r: Self)
        ensures
            r@ == (ScopeView { outer: None, vars: expressions@ }),
    {
        InnerEnv { outer: None, expressions }
    }

    fn enter(&mut self, outer: usize)
        ensures
            final(self)@ == (ScopeView { outer: Some(outer as nat), vars: old(self)@.vars }),
    {
        self.outer = Some(outer);
    }

    fn exit(&self) -> (r: Option<usize>)
        ensures
            r == self.outer,
            match r {
                Some(j) => self@.outer == Some(j as nat),
                None => self@.outer is None,
            },
    {
        self.outer
    }

    fn set(&mut self, key: String, value: MalType)
        ensures
            final(self)@ == (ScopeView {
                outer: old(self)@.outer,
                vars: old(self)@.vars.insert(key@, value@),
            }),
    {
        self.expressions.set(key, value);
    }

    fn get(&self, s: &str) -> (r: Option<&MalType>)
        ensures
            match r {
                Some(v) => self@.vars.contains_key(s@) && v@ == self@.vars[s@],
                None => !self@.vars.contains_key(s@),
            },
    {
        self.expressions.get(s)
    }
}

impl Environment {
    /// How many more applications may nest. It is no part of the view: it
    /// bounds evaluation, and evaluation leaves it as it was. Within the
    /// bound the value of a form does not depend on it; a form that needs
    /// more fails with `DepthExceeded`, a failure that the language itself
    /// does not have.
    pub closed spec fn depth_left(&self) -> nat {
        self.depth as nat
    }

    /// An environment with one empty scope and the built-in library, in
    /// which applications may nest [`DEFAULT_DEPTH`] deep. What a form
    /// evaluates to in it is what the language says only as long as the
    /// form stays within that depth.
    pub fn new() -> (r: Self)
        ensures
            r@.well_formed(),
            r@ == EnvView::initial(),
            r.depth_left() == DEFAULT_DEPTH,
    {
        Self::with_depth(DEFAULT_DEPTH)
    }

    /// An environment like a new one, with room for `depth` nested
    /// applications: the caller chooses the bound.
    pub fn with_depth(depth: usize) -> (r: Self)
        ensures
            r@.well_formed(),
            r@ == EnvView::initial(),
            r.depth_left() == depth,
    {
        let mut scopes: Vec<InnerEnv> = Vec::new();
        scopes.push(InnerEnv::new(Expressions::new()));
        let r = Self {
            scopes,
            current: 0,
            default_ns: Expressions::new_default(),
            depth,
            next_id: 0,
            output: Vec::new(),
        };
        assert(r@.scopes =~= EnvView::initial().scopes);
        assert(r@.output =~= EnvView::initial().output);
        r
    }

    /// Makes a scope inside scope `outer` that binds the parameters of the
    /// pattern `keys` to `values`, and returns its number. The cursor
    /// stays where it is. Where the pattern cannot be bound, nothing
    /// changes.
    pub fn from(&mut self, outer: usize, keys: &MalType, values: &[MalType]) -> (r: Result<
        usize,
        EvalError,
    >)
        requires
            old(self)@.well_formed(),
        ensures
            final(self)@.well_formed(),
            final(self).depth_left() == old(self).depth_left(),
            match bind_params(keys@, values_of(values@)) {
                Ok(vars) => r == Ok::<usize, EvalError>(old(self)@.scopes.len() as usize)
                    && final(self)@ == old(self)@.derived(outer as nat, vars),
                Err(e) => r is Err && r->Err_0@ == e && final(self)@ == old(self)@,
            },
    {
        let params = match keys {
            MalType::List(inner) => inner,
            _ => {
                return Err(bad_pattern_error(keys));
            },
        };
        let ghost args = values_of(values@);
        let mut vars = Expressions::new();
        let mut i: usize = 0;
        while i < params.len()
            invariant_except_break
                bind_params(keys@, args) == bind_from(
                    keys@,
                    values_of(params@),
                    args,
                    i as int,
                    vars@,
                ),
            invariant
                i <= params.len(),
                i <= values.len(),
                args == values_of(values@),
                keys@ == Value::List(values_of(params@)),
                *self == *old(self),
                self@.well_formed(),
            ensures
                bind_params(keys@, args) == Ok::<Map<Seq<char>, Value>, Failure>(vars@),
            decreases params.len() - i,
        {
            match &params[i] {
                MalType::Symbol(name) => {
                    if params[i].is_symbol("&") {
                        proof {
                            reveal_strlit("&");
                            assert("&"@ =~= rest_marker());
                        }
                        if i + 1 < params.len() {
                            if let MalType::Symbol(rest) = &params[i + 1] {
                                let tail = clone_items(slice_subrange(values, i, values.len()));
                                proof {
                                    assert(values_of(tail@) =~= args.skip(i as int));
                                }
                                vars.set(rest.clone(), MalType::List(tail));
                                break;
                            }
                        }
                        return Err(bad_pattern_error(keys));
                    }
                    proof {
                        reveal_strlit("&");
                        assert("&"@ =~= rest_marker());
                    }
                    if i >= values.len() {
                        return Err(EvalError::ArityMismatch);
                    }
                    vars.set(name.clone(), values[i].clone());
                },
                _ => {
                    return Err(bad_pattern_error(keys));
                },
            }
            i += 1;
        }
        let id = self.scopes.len();
        let mut scope = InnerEnv::new(vars);
        scope.enter(outer);
        self.scopes.push(scope);
        assert(self@.scopes =~= old(self)@.derived(outer as nat, vars@).scopes);
        Ok(id)
    }

    /// Binds the symbol `key` to `value` in the current scope, and in no
    /// other.
    pub fn set(&mut self, key: MalType, value: MalType)
        requires
            old(self)@.well_formed(),
            key is Symbol,
        ensures
            final(self)@.well_formed(),
            final(self).depth_left() == old(self).depth_left(),
            final(self)@ == old(self)@.bind(key@->Symbol_0, value@),
    {
        match key {
            MalType::Symbol(symbol) => {
                let at = self.current;
                self.scopes[at].set(symbol, value);
                assert(self@.scopes =~= old(self)@.bind(key@->Symbol_0, value@).scopes);
            },
            _ => {},
        }
    }

    /// What `s` stands for: the library first, then the current scope and
    /// the scopes around it.
    pub fn get(&self, s: &str) -> (r: Option<MalType>)
        requires
            self@.well_formed(),
        ensures
            match self@.lookup(s@) {
                Some(v) => r matches Some(x) && x@ == v,
                None => r is None,
            },
    {
        if let Some(core_fn) = self.default_ns.get(s) {
            return Some(core_fn.clone());
        }
        let mut i: usize = self.current;
        while i < self.scopes.len()
            invariant
                self@.lookup(s@) == self@.chain_lookup(i as nat, s@),
            decreases i,
        {
            if let Some(found) = self.scopes[i].get(s) {
                return Some(found.clone());
            }
            match self.scopes[i].exit() {
                Some(j) => {
                    if j < i {
                        i = j;
                    } else {
                        return None;
                    }
                },
                None => {
                    return None;
                },
            }
        }
        None
    }

    /// Moves into a new empty scope inside the current one.
    pub fn enter(&mut self)
        requires
            old(self)@.well_formed(),
        ensures
            final(self)@.well_formed(),
            final(self).depth_left() == old(self).depth_left(),
            final(self)@ == old(self)@.entered(),
    {
        let id = self.scopes.len();
        let mut new_inner = InnerEnv::new(Expressions::new());
        new_inner.enter(self.current);
        self.scopes.push(new_inner);
        self.current = id;
        assert(self@.scopes =~= old(self)@.entered().scopes);
    }

    /// Moves out to the scope around the current one. In a scope that
    /// has none around it, nothing changes.
    pub fn exit(&mut self)
        requires
            old(self)@.well_formed(),
        ensures
            final(self)@.well_formed(),
            final(self).depth_left() == old(self).depth_left(),
            final(self)@ == old(self)@.exited(),
    {
        if let Some(outer) = self.scopes[self.current].exit() {
            if outer < self.current {
                self.current = outer;
            }
        }
    }

    /// The number of the scope that the cursor is on.
    pub fn current(&self) -> (r: usize)
        ensures
            r == self@.current,
    {
        self.current
    }

    /// Puts the cursor on scope `id`, a scope that exists.
    pub fn focus(&mut self, id: usize)
        requires
            id < old(self)@.scopes.len(),
            old(self)@.well_formed(),
        ensures
            final(self)@.well_formed(),
            final(self).depth_left() == old(self).depth_left(),
            final(self)@ == old(self)@.focused(id as nat),
    {
        self.current = id;
    }

    /// How many more applications may nest.
    pub fn depth(&self) -> (r: usize)
        ensures
            r == self.depth_left(),
    {
        self.depth
    }

    /// Sets how many more applications may nest.
    pub fn set_depth(&mut self, depth: usize)
        requires
            old(self)@.well_formed(),
        ensures
            final(self)@.well_formed(),
            final(self)@ == old(self)@,
            final(self).depth_left() == depth,
    {
        self.depth = depth;
    }

    /// Gives out the identity for a new user function.
    pub fn fresh_id(&mut self) -> (r: u64)
        requires
            old(self)@.well_formed(),
        ensures
            final(self)@.well_formed(),
            final(self).depth_left() == old(self).depth_left(),
            r == old(self)@.next_id,
            final(self)@ == old(self)@.numbered(),
    {
        let id = self.next_id;
        if self.next_id < u64::MAX {
            self.next_id += 1;
        }
        id
    }

    /// The number of scopes made so far.
    pub fn scope_count(&self) -> (r: usize)
        ensures
            r == self@.scopes.len(),
    {
        self.scopes.len()
    }

    /// The identity that the next user function will get.
    pub fn next_id(&self) -> (r: u64)
        ensures
            r == self@.next_id,
    {
        self.next_id
    }

    /// Gives up the scopes from number `len` on, if no user function was
    /// made since the next identity was `id`. The scope that the cursor is
    /// on is not among them.
    pub fn release(&mut self, len: usize, id: u64)
        requires
            old(self)@.current < len,
            old(self)@.well_formed(),
        ensures
            final(self)@.well_formed(),
            final(self).depth_left() == old(self).depth_left(),
            final(self)@ == old(self)@.released(len as nat, id as nat),
    {
        if self.next_id == id && id < u64::MAX && len <= self.scopes.len() {
            self.scopes.truncate(len);
            assert(self@.scopes =~= old(self)@.released(len as nat, id as nat).scopes);
        }
    }

    /// Adds `line` to what was printed.
    pub fn print(&mut self, line: String)
        requires
            old(self)@.well_formed(),
        ensures
            final(self)@.well_formed(),
            final(self).depth_left() == old(self).depth_left(),
            final(self)@ == old(self)@.printed(line@),
    {
        self.output.push(line);
        assert(self@.output =~= old(self)@.printed(line@).output);
    }

    /// Hands over the lines printed since they were last taken.
    pub fn take_output(&mut self) -> (r: Vec<String>)
        requires
            old(self)@.well_formed(),
        ensures
            final(self)@.well_formed(),
            final(self).depth_left() == old(self).depth_left(),
            lines_of(r@) == old(self)@.output,
            final(self)@ == (EnvView { output: Seq::empty(), ..old(self)@ }),
    {
        let mut lines: Vec<String> = Vec::new();
        std::mem::swap(&mut lines, &mut self.output);
        assert(self@.output =~= Seq::<Seq<char>>::empty());
        lines
    }
}

} // verus!
