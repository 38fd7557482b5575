//! Expressions: from infix order to postfix order with an operator stack.

use vstd::prelude::*;
use vstd::string::StrSliceExecFns;
use super::utils::{read_symbol, symbol};
use super::Compiler;
use crate::text::texts;
use crate::types::{error_of, ErrorKind, ErrorView, MyError};

verus! {

/// How strongly a token on the operator stack binds: `*` and `/` more than `+` and `-`,
/// and those more than `(`.
pub open spec fn strength(token: Seq<char>) -> int {
    if token == seq!['*'] || token == seq!['/'] {
        2
    } else if token == seq!['+'] || token == seq!['-'] {
        1
    } else {
        0
    }
}

/// Whether a token is one of the four operators.
pub open spec fn is_operator(token: Seq<char>) -> bool {
    token == seq!['+'] || token == seq!['-'] || token == seq!['/'] || token == seq!['*']
}

/// The converter's state: the postfix output so far, and the stack of operators
/// and opening brackets, top last.
pub struct Shunt {
    pub output: Seq<Seq<char>>,
    pub stack: Seq<Seq<char>>,
}

impl Shunt {
    /// The top of the stack moves to the output.
    pub open spec fn pop(self) -> Shunt {
        Shunt { output: self.output.push(self.stack.last()), stack: self.stack.drop_last() }
    }

    /// A closing bracket: operators move to the output until an opening bracket is
    /// on top, which is dropped. `None` if the stack holds no opening bracket.
    pub open spec fn close(self) -> Option<Shunt>
        decreases self.stack.len(),
    {
        if self.stack.len() == 0 {
            None
        } else if self.stack.last() == seq!['('] {
            Some(Shunt { stack: self.stack.drop_last(), ..self })
        } else {
            self.pop().close()
        }
    }

    /// An operator of strength `incoming` arrives: the operators on top that bind at
    /// least as strongly move to the output.
    pub open spec fn yield_to(self, incoming: int) -> Shunt
        decreases self.stack.len(),
    {
        if self.stack.len() > 0 && strength(self.stack.last()) >= incoming {
            self.pop().yield_to(incoming)
        } else {
            self
        }
    }

    /// The end of the input: the output, followed by the stack from the top down.
    pub open spec fn flush(self) -> Seq<Seq<char>>
        decreases self.stack.len(),
    {
        if self.stack.len() == 0 {
            self.output
        } else {
            self.pop().flush()
        }
    }

    /// One token is read. An operand goes to the output, `(` goes on the stack, `)`
    /// closes a bracket, an operator goes on the stack after the operators that bind
    /// at least as strongly have left it. Any other token is an error.
    pub open spec fn read(self, token: Seq<char>) -> Result<Shunt, ErrorView> {
        if symbol(token) is Some {
            Ok(Shunt { output: self.output.push(token), ..self })
        } else if token == seq!['('] {
            Ok(Shunt { stack: self.stack.push(token), ..self })
        } else if token == seq![')'] {
            match self.close() {
                Some(closed) => Ok(closed),
                None => Err(error_of(ErrorKind::Syntax, "Mismatched brackets"@)),
            }
        } else if is_operator(token) {
            let yielded = self.yield_to(strength(token));
            Ok(Shunt { stack: yielded.stack.push(token), ..yielded })
        } else {
            Err(error_of(ErrorKind::Syntax, "Unexpected token "@ + token))
        }
    }
}

/// The converter's state after the first `n` tokens of `infix`, or the first error.
pub open spec fn shunt(infix: Seq<Seq<char>>, n: nat) -> Result<Shunt, ErrorView>
    decreases n,
{
    if n == 0 {
        Ok(Shunt { output: Seq::empty(), stack: Seq::empty() })
    } else {
        match shunt(infix, (n - 1) as nat) {
            Ok(state) => state.read(infix[n - 1]),
            Err(error) => Err(error),
        }
    }
}

/// The postfix form of `infix`, or the first error met from left to right.
pub open spec fn postfix(infix: Seq<Seq<char>>) -> Result<Seq<Seq<char>>, ErrorView> {
    match shunt(infix, infix.len()) {
        Ok(state) => Ok(state.flush()),
        Err(error) => Err(error),
    }
}

/// An error stops the conversion: later tokens do not change it.
pub proof fn lemma_shunt_error_stays(infix: Seq<Seq<char>>, n: nat, m: nat)
    requires
        shunt(infix, n) is Err,
        n <= m,
    ensures
        shunt(infix, m) == shunt(infix, n),
    decreases m,
{
    if n < m {
        lemma_shunt_error_stays(infix, n, (m - 1) as nat);
    }
}

/// Whether `token` is the single character `c`.
pub fn is_char(token: &str, c: char) -> (yes: bool)
    ensures
        yes == (token@ == seq![c]),
{
    let yes = token.unicode_len() == 1 && token.get_char(0) == c;
    proof {
        if yes {
            assert(token@ =~= seq![c]);
        }
    }
    yes
}

/// How strongly `token` binds on the operator stack.
fn strength_of(token: &str) -> (s: u8)
    ensures
        s == strength(token@),
{
    if is_char(token, '*') || is_char(token, '/') {
        2
    } else if is_char(token, '+') || is_char(token, '-') {
        1
    } else {
        0
    }
}

/// Moves the top of the stack to the output.
fn pop_to_output(output: &mut Vec<String>, stack: &mut Vec<String>)
    requires
        old(stack)@.len() > 0,
    ensures
        (Shunt { output: texts(final(output)@), stack: texts(final(stack)@) }) == (Shunt {
            output: texts(old(output)@),
            stack: texts(old(stack)@),
        }).pop(),
        final(stack)@.len() == old(stack)@.len() - 1,
{
    let top = stack.pop().unwrap();
    output.push(top);
    proof {
        assert(texts(final(output)@) =~= texts(old(output)@).push(texts(old(stack)@).last()));
        assert(texts(final(stack)@) =~= texts(old(stack)@).drop_last());
    }
}

/// Handles a closing bracket. Returns whether an opening bracket was found.
fn close_bracket(output: &mut Vec<String>, stack: &mut Vec<String>) -> (found: bool)
    ensures
        match (Shunt { output: texts(old(output)@), stack: texts(old(stack)@) }).close() {
            Some(closed) => found && closed == (Shunt {
                output: texts(final(output)@),
                stack: texts(final(stack)@),
            }),
            None => !found,
        },
{
    let ghost start = Shunt { output: texts(output@), stack: texts(stack@) };
    let mut found = false;
    while !found && stack.len() > 0
        invariant
            !found ==> (Shunt { output: texts(output@), stack: texts(stack@) }).close()
                == start.close(),
            found ==> start.close() == Some(Shunt { output: texts(output@), stack: texts(stack@) }),
        decreases stack.len(),
    {
        if is_char(stack[stack.len() - 1].as_str(), '(') {
            let ghost before = stack@;
            stack.pop();
            found = true;
            proof {
                assert(texts(stack@) =~= texts(before).drop_last());
                assert(texts(before).last() == seq!['(']);
            }
        } else {
            pop_to_output(output, stack);
        }
    }
    found
}

/// Makes room for an operator of strength `incoming`.
fn yield_to(output: &mut Vec<String>, stack: &mut Vec<String>, incoming: u8)
    ensures
        (Shunt { output: texts(final(output)@), stack: texts(final(stack)@) }) == (Shunt {
            output: texts(old(output)@),
            stack: texts(old(stack)@),
        }).yield_to(incoming as int),
{
    let ghost start = Shunt { output: texts(output@), stack: texts(stack@) };
    while stack.len() > 0 && strength_of(stack[stack.len() - 1].as_str()) >= incoming
        invariant
            (Shunt { output: texts(output@), stack: texts(stack@) }).yield_to(incoming as int)
                == start.yield_to(incoming as int),
        decreases stack.len(),
    {
        pop_to_output(output, stack);
    }
}

/// Moves what is left on the stack to the output, from the top down.
fn flush(output: &mut Vec<String>, stack: &mut Vec<String>)
    ensures
        texts(final(output)@) == (Shunt {
            output: texts(old(output)@),
            stack: texts(old(stack)@),
        }).flush(),
{
    let ghost start = Shunt { output: texts(output@), stack: texts(stack@) };
    while stack.len() > 0
        invariant
            (Shunt { output: texts(output@), stack: texts(stack@) }).flush() == start.flush(),
        decreases stack.len(),
    {
        pop_to_output(output, stack);
    }
}

/// Puts an expression into postfix order: operands keep their order, each
/// operator follows its operands, and brackets disappear.
pub fn infix_to_postfix(infix: Vec<String>) -> (converted: Result<Vec<String>, MyError>)
    ensures
        match postfix(texts(infix@)) {
            Ok(tokens) => converted is Ok && texts(converted->Ok_0@) == tokens,
            Err(error) => converted is Err && converted->Err_0@ == error,
        },
{
    let mut output: Vec<String> = Vec::new();
    let mut stack: Vec<String> = Vec::new();
    let mut i: usize = 0;
    proof {
        assert(texts(output@) =~= Seq::empty());
        assert(texts(stack@) =~= Seq::empty());
    }
    while i < infix.len()
        invariant
            i <= infix.len(),
            shunt(texts(infix@), i as nat) == Ok::<Shunt, ErrorView>(
                Shunt { output: texts(output@), stack: texts(stack@) },
            ),
        decreases infix.len() - i,
    {
        let token = infix[i].clone();
        let ghost before = Shunt { output: texts(output@), stack: texts(stack@) };
        proof {
            assert(texts(infix@)[i as int] == token@);
        }
        if read_symbol(token.as_str()).is_some() {
            output.push(token);
            proof {
                assert(texts(output@) =~= before.output.push(token@));
            }
        } else if is_char(token.as_str(), '(') {
            stack.push(token);
            proof {
                assert(texts(stack@) =~= before.stack.push(token@));
            }
        } else if is_char(token.as_str(), ')') {
            if !close_bracket(&mut output, &mut stack) {
                proof {
                    lemma_shunt_error_stays(texts(infix@), (i + 1) as nat, infix@.len());
                }
                return Err(MyError::new(ErrorKind::Syntax, "Mismatched brackets"));
            }
        } else if is_char(token.as_str(), '+') || is_char(token.as_str(), '-') || is_char(
            token.as_str(),
            '/',
        ) || is_char(token.as_str(), '*') {
            yield_to(&mut output, &mut stack, strength_of(token.as_str()));
            let ghost yielded = stack@;
            stack.push(token);
            proof {
                assert(texts(stack@) =~= texts(yielded).push(token@));
            }
        } else {
            proof {
                lemma_shunt_error_stays(texts(infix@), (i + 1) as nat, infix@.len());
            }
            return Err(MyError::with_token(ErrorKind::Syntax, "Unexpected token ", token.as_str()));
        }
        i += 1;
    }
    flush(&mut output, &mut stack);
    Ok(output)
}

impl Compiler {
    /// Puts an expression into postfix order. See [`infix_to_postfix`].
    pub fn infix_to_postfix(&self, infix: Vec<String>) -> (converted: Result<Vec<String>, MyError>)
        ensures
            match postfix(texts(infix@)) {
                Ok(tokens) => converted is Ok && texts(converted->Ok_0@) == tokens,
                Err(error) => converted is Err && converted->Err_0@ == error,
            },
    {
        infix_to_postfix(infix)
    }
}

} // verus!
