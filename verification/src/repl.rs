//! One turn of the read-eval-print loop: from a line of text to the
//! lines that answer it.

use crate::environment::{lines_of, EnvView, Environment};
use crate::error::{EvalError, ParseError};
use crate::eval::eval;
use crate::printer::render;
use crate::reader::{is_blank, read_all, skip_blanks, tokens_of, Lexer, Parser};
use crate::semantics::eval_spec;
use crate::types::{values_of, Value};
use vstd::prelude::*;

verus! {

/// What stands in front of the words of a failure.
pub open spec fn error_prefix() -> Seq<char> {
    "Error: "@
}

/// The environment after the forms from number `i` on were evaluated in
/// order, and the readable text of each value was printed. The first
/// failure is printed in its place and ends the turn.
pub open spec fn run_forms(forms: Seq<Value>, i: int, st: EnvView, depth: nat) -> EnvView
    decreases forms.len() - i,
{
    if i < 0 || i >= forms.len() {
        st
    } else {
        let o = eval_spec(forms[i], st, depth);
        match o.result {
            Ok(v) => run_forms(forms, i + 1, o.state.printed(render(v, true)), depth),
            Err(e) => o.state.printed(error_prefix() + e.message_spec()),
        }
    }
}

/// The environment after one turn on the line `text`: every form of the
/// line evaluated and answered, or the failure to read the line printed.
pub open spec fn rep_spec(text: Seq<char>, st: EnvView, depth: nat) -> EnvView {
    match read_all(tokens_of(text), 0) {
        Ok((forms, _)) => run_forms(forms, 0, st, depth),
        Err(e) => st.printed(error_prefix() + e.message_spec()),
    }
}

proof fn lemma_all_blank(text: Seq<char>, p: int)
    requires
        0 <= p <= text.len(),
        forall|i: int| 0 <= i < text.len() ==> is_blank(#[trigger] text[i]),
    ensures
        skip_blanks(text, p) == text.len(),
    decreases text.len() - p,
{
    if p < text.len() {
        lemma_all_blank(text, p + 1);
    }
}

/// A turn on a blank line, one that holds nothing but white space and
/// commas, prints nothing and leaves the environment as it is.
pub proof fn lemma_blank_turn(text: Seq<char>, st: EnvView, depth: nat)
    requires
        forall|i: int| 0 <= i < text.len() ==> is_blank(#[trigger] text[i]),
    ensures
        rep_spec(text, st, depth) == st,
{
    lemma_all_blank(text, 0);
    assert(tokens_of(text) =~= Seq::<Seq<char>>::empty());
}

/// The text of the definition of `not` in the language itself.
pub open spec fn not_definition() -> Seq<char> {
    "(def! not (fn* (a) (if a false true)))"@
}

/// Why a text could not be read and evaluated.
#[derive(Debug)]
pub enum ReplError {
    Parse(ParseError),
    Eval(EvalError),
    /// The text held no form.
    Empty,
}

/// Reads the line `input`, evaluates its forms in order, and returns the
/// lines to print: what the forms printed, the readable text of each
/// value, and in place of the first failure its words, which end the
/// turn.
#[verifier::loop_isolation(false)]
pub fn rep(input: &str, env: &mut Environment) -> (r: Vec<String>)
    requires
        old(env)@.well_formed(),
    ensures
        final(env)@.well_formed(),
        lines_of(r@) == rep_spec(input@, old(env)@, old(env).depth_left()).output,
        final(env)@ == (EnvView {
            output: Seq::empty(),
            ..rep_spec(input@, old(env)@, old(env).depth_left())
        }),
        final(env).depth_left() == old(env).depth_left(),
{
    let ghost depth = env.depth_left();
    let ghost start = env@;
    let mut parser = Parser::new(Lexer::tokenize(input));
    match parser.parse() {
        Err(e) => {
            let mut line = String::from_str("Error: ");
            let words = e.message();
            line.append(words.as_str());
            env.print(line);
        },
        Ok(forms) => {
            let ghost all = values_of(forms@);
            let mut i: usize = 0;
            while i < forms.len()
                invariant
                    i <= forms.len(),
                    env.depth_left() == depth,
                    env@.well_formed(),
                    run_forms(all, 0, start, depth) == run_forms(all, i as int, env@, depth),
                decreases forms.len() - i,
            {
                assert(all[i as int] == forms@[i as int]@);
                match eval(&forms[i], env) {
                    Ok(v) => {
                        env.print(v.to_readable());
                    },
                    Err(e) => {
                        let mut line = String::from_str("Error: ");
                        let words = e.message();
                        line.append(words.as_str());
                        env.print(line);
                        break;
                    },
                }
                i += 1;
            }
        },
    }
    env.take_output()
}

/// Defines `not` in the current scope, by evaluating its definition.
pub fn mal_define_fn(env: &mut Environment) -> (r: Result<(), ReplError>)
    requires
        old(env)@.well_formed(),
    ensures
        final(env)@.well_formed(),
        match read_all(tokens_of(not_definition()), 0) {
            Ok((forms, _)) => if forms.len() == 0 {
                r matches Err(ReplError::Empty) && final(env)@ == old(env)@
            } else {
                let o = eval_spec(forms[0], old(env)@, old(env).depth_left());
                &&& final(env)@ == o.state
                &&& match o.result {
                    Ok(_) => r is Ok,
                    Err(e) => r matches Err(ReplError::Eval(x)) && x@ == e,
                }
            },
            Err(e) => r matches Err(ReplError::Parse(x)) && x == e && final(env)@ == old(env)@,
        },
        final(env).depth_left() == old(env).depth_left(),
{
    let input = "(def! not (fn* (a) (if a false true)))";
    let lexer = Lexer::tokenize(input);
    let mut parser = Parser::new(lexer);
    let tokens = match parser.parse() {
        Ok(tokens) => tokens,
        Err(e) => {
            return Err(ReplError::Parse(e));
        },
    };
    if tokens.len() == 0 {
        return Err(ReplError::Empty);
    }
    assert(values_of(tokens@)[0] == tokens@[0]@);
    match eval(&tokens[0], env) {
        Ok(_) => Ok(()),
        Err(e) => Err(ReplError::Eval(e)),
    }
}

} // verus!
