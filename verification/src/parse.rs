//! The value tree and the parser that builds it from words.

use vstd::prelude::*;
use crate::error::EvalError;
use crate::op::Operator;
use crate::op::operator_of;
use crate::text::decimal;
use crate::text::decimal_string;
use crate::text::i32_literal;
use crate::text::parse_i32;
use crate::text::str_eq;
use crate::text::words_of;

verus! {

/// A node of a program: a number, an operator, a symbol, or a nested block.
#[derive(Debug, PartialEq, Eq)]
pub enum Value {
    Num(i32),
    Op(String),
    Sym(String),
    Block(Vec<Value>),
}

/// The mathematical model of a [`Value`].
pub enum Term {
    Num(i32),
    Op(Seq<char>),
    Sym(Seq<char>),
    Block(Seq<Term>),
}

impl Term {
    /// The number held, or a type mismatch for any other kind of term.
    pub open spec fn number(self) -> Result<i32, EvalError> {
        match self {
            Term::Num(n) => Ok(n),
            _ => Err(EvalError::TypeMismatch),
        }
    }

    /// The name of a symbol, or a type mismatch for any other kind of term.
    pub open spec fn name(self) -> Result<Seq<char>, EvalError> {
        match self {
            Term::Sym(name) => Ok(name),
            _ => Err(EvalError::TypeMismatch),
        }
    }

    /// The contents of a block; any other term counts as a block of itself.
    pub open spec fn items(self) -> Seq<Term> {
        match self {
            Term::Block(items) => items,
            _ => seq![self],
        }
    }

    /// The text that `puts` writes for the term.
    pub open spec fn text(self) -> Seq<char> {
        match self {
            Term::Num(n) => decimal(n as int),
            Term::Op(name) => name,
            Term::Sym(name) => name,
            Term::Block(_) => "<block>"@,
        }
    }
}

impl Value {
    /// The term that this value stands for.
    pub open spec fn term(&self) -> Term
        decreases self,
    {
        match self {
            Value::Num(n) => Term::Num(*n),
            Value::Op(name) => Term::Op(name@),
            Value::Sym(name) => Term::Sym(name@),
            Value::Block(items) => Term::Block(
                Seq::new(
                    items@.len(),
                    // The sequence asks for no index out of range; the test
                    // on `i` is there for the termination proof.
                    |i: int|
                        if 0 <= i < items@.len() {
                            items@[i].term()
                        } else {
                            Term::Num(0)
                        },
                ),
            ),
        }
    }
}

impl View for Value {
    type V = Term;

    open spec fn view(&self) -> Term {
        self.term()
    }
}

/// The terms of a sequence of values, in order.
pub open spec fn terms(items: Seq<Value>) -> Seq<Term> {
    Seq::new(items.len(), |i: int| items[i]@)
}

/// A block value stands for the block of its items' terms.
pub proof fn lemma_block_view(items: Vec<Value>)
    ensures
        Value::Block(items)@ == Term::Block(terms(items@)),
{
    assert(Value::Block(items)@->Block_0 =~= terms(items@));
}

impl Clone for Value {
    fn clone(&self) -> (copy: Self)
        ensures
            copy@ == self@,
        decreases self,
    {
        match self {
            Value::Num(n) => Value::Num(*n),
            Value::Op(name) => Value::Op(name.clone()),
            Value::Sym(name) => Value::Sym(name.clone()),
            Value::Block(items) => {
                let mut copies: Vec<Value> = Vec::new();
                let mut i: usize = 0;
                while i < items.len()
                    invariant
                        *self == Value::Block(*items),
                        i <= items@.len(),
                        copies@.len() == i,
                        forall|k: int| 0 <= k < i ==> copies@[k]@ == items@[k]@,
                    decreases items@.len() - i,
                {
                    // An item of a block is smaller than the block.
                    assert(decreases_to!(*self => self->Block_0[i as int]));
                    let copy = items[i].clone();
                    copies.push(copy);
                    i += 1;
                }
                proof {
                    lemma_block_view(copies);
                    lemma_block_view(*items);
                    assert(terms(copies@) =~= terms(items@));
                }
                Value::Block(copies)
            },
        }
    }
}

impl Value {
    /// The number held by a `Num`; any other value is a type mismatch.
    pub fn as_num(&self) -> (number: Result<i32, EvalError>)
        ensures
            number == self@.number(),
    {
        match self {
            Value::Num(n) => Ok(*n),
            _ => Err(EvalError::TypeMismatch),
        }
    }

    /// The contents of a `Block`; any other value becomes a block of itself.
    pub fn to_block(self) -> (items: Vec<Value>)
        ensures
            terms(items@) == self@.items(),
    {
        match self {
            Value::Block(items) => {
                proof {
                    lemma_block_view(items);
                }
                items
            },
            other => {
                let mut items: Vec<Value> = Vec::new();
                let ghost term = other@;
                items.push(other);
                assert(terms(items@) =~= seq![term]);
                items
            },
        }
    }

    /// The name of a `Sym`; any other value is a type mismatch.
    pub fn to_sym(self) -> (name: Result<String, EvalError>)
        ensures
            match name {
                Ok(text) => self@ == Term::Sym(text@),
                Err(e) => !(self@ is Sym) && e == EvalError::TypeMismatch,
            },
    {
        match self {
            Value::Sym(name) => Ok(name),
            _ => Err(EvalError::TypeMismatch),
        }
    }

    /// The text of the value: a number in decimal, an operator or a symbol
    /// by its name, a block as `<block>`.
    pub fn to_string(&self) -> (text: String)
        ensures
            text@ == self@.text(),
    {
        match self {
            Value::Num(n) => decimal_string(*n),
            Value::Op(name) => name.clone(),
            Value::Sym(name) => name.clone(),
            Value::Block(_) => "<block>".to_owned(),
        }
    }
}

/// Why a sequence of words is not a program.
#[derive(Debug, PartialEq, Eq)]
pub enum ParseError {
    /// A `}` came with no block open; the text says which bracket.
    UnmatchedBrackets(String),
}

impl Clone for ParseError {
    fn clone(&self) -> (copy: Self)
        ensures
            copy == *self,
    {
        match self {
            ParseError::UnmatchedBrackets(message) => ParseError::UnmatchedBrackets(
                message.clone(),
            ),
        }
    }
}

impl ParseError {
    /// The message carried by the error.
    pub fn to_string(&self) -> (text: String)
        ensures
            text@ == self->UnmatchedBrackets_0@,
    {
        match self {
            ParseError::UnmatchedBrackets(message) => message.clone(),
        }
    }
}

/// The name that a symbol word declares or refers to: the word itself, or
/// what follows the `/` of a declaring occurrence.
pub open spec fn symbol_name(word: Seq<char>) -> Seq<char> {
    if word.len() > 0 && word[0] == '/' {
        word.subrange(1, word.len() as int)
    } else {
        word
    }
}

/// The term of a word that is not a bracket: a number if the word writes
/// one, else an operator if it is a keyword, else a symbol.
pub open spec fn classify(word: Seq<char>) -> Term {
    match i32_literal(word) {
        Some(n) => Term::Num(n),
        None => if operator_of(word) is Some {
            Term::Op(word)
        } else {
            Term::Sym(symbol_name(word))
        },
    }
}

/// Reads `word` as a number.
pub fn num_parse(word: &str) -> (number: Result<Value, ()>)
    ensures
        match number {
            Ok(value) => i32_literal(word@) is Some && value@ == Term::Num(i32_literal(word@)->0),
            Err(_) => i32_literal(word@) is None,
        },
{
    match parse_i32(word) {
        Some(n) => Ok(Value::Num(n)),
        None => Err(()),
    }
}

/// Reads `word` as an operator keyword; hands the word back if it is none.
pub fn op_parse(word: &str) -> (operator: Result<Value, &str>)
    ensures
        match operator {
            Ok(value) => operator_of(word@) is Some && value@ == Term::Op(word@),
            Err(rest) => operator_of(word@) is None && rest@ == word@,
        },
{
    match Operator::lookup(word) {
        Some(_) => Ok(Value::Op(word.to_owned())),
        None => Err(word),
    }
}

/// Reads `word` as a symbol, dropping the `/` of a declaring occurrence.
pub fn sym_parse(word: &str) -> (symbol: Value)
    ensures
        symbol@ == Term::Sym(symbol_name(word@)),
{
    let length = word.unicode_len();
    if length > 0 && word.get_char(0) == '/' {
        Value::Sym(word.substring_char(1, length).to_owned())
    } else {
        Value::Sym(word.to_owned())
    }
}

/// The blocks that are open while parsing, outermost first: each holds the
/// values read into it so far.
#[derive(Debug)]
pub struct ParseContext {
    pub blocks: Vec<Vec<Value>>,
}

impl View for ParseContext {
    type V = Seq<Seq<Term>>;

    open spec fn view(&self) -> Seq<Seq<Term>> {
        Seq::new(self.blocks@.len(), |i: int| terms(self.blocks@[i]@))
    }
}

impl ParseContext {
    /// A context with no block open.
    pub fn new() -> (context: Self)
        ensures
            context@ == Seq::<Seq<Term>>::empty(),
    {
        let context = ParseContext { blocks: Vec::new() };
        assert(context@ =~= Seq::<Seq<Term>>::empty());
        context
    }

    /// Opens a new, empty block inside the innermost one and returns it.
    pub fn push_block(&mut self) -> (top: &Vec<Value>)
        ensures
            final(self)@ == old(self)@.push(Seq::empty()),
            top@ == Seq::<Value>::empty(),
    {
        self.blocks.push(Vec::new());
        assert(self@ =~~= old(self)@.push(Seq::empty()));
        &self.blocks[self.blocks.len() - 1]
    }

    /// Takes the innermost open block out; `None` if no block is open.
    pub fn pop_block(&mut self) -> (top: Option<Vec<Value>>)
        ensures
            match top {
                Some(items) => old(self)@.len() > 0 && terms(items@) == old(self)@.last()
                    && final(self)@ == old(self)@.drop_last(),
                None => old(self)@.len() == 0 && final(self)@ == old(self)@,
            },
    {
        if self.blocks.len() == 0 {
            return None;
        }
        let top = self.blocks.pop();
        assert(self@ =~~= old(self)@.drop_last());
        top
    }

    /// Appends `value` to the innermost open block.
    pub fn push(&mut self, value: Value)
        requires
            old(self)@.len() > 0,
        ensures
            final(self)@ == old(self)@.update(
                old(self)@.len() - 1,
                old(self)@.last().push(value@),
            ),
    {
        let last = self.blocks.len() - 1;
        self.blocks[last].push(value);
        assert(self@ =~~= old(self)@.update(
            old(self)@.len() - 1,
            old(self)@.last().push(value@),
        ));
    }
}

/// The open blocks after the innermost one is closed: it becomes the last
/// item of the block around it.
pub open spec fn close_top(open: Seq<Seq<Term>>) -> Seq<Seq<Term>>
    recommends
        open.len() >= 2,
{
    let n = open.len() as int;
    open.drop_last().update(n - 2, open[n - 2].push(Term::Block(open[n - 1])))
}

/// The open blocks after one more word, or `None` where the word is a `}`
/// that closes nothing.
pub open spec fn feed(open: Seq<Seq<Term>>, word: Seq<char>) -> Option<Seq<Seq<Term>>>
    recommends
        open.len() >= 1,
{
    if word == "{"@ {
        Some(open.push(Seq::empty()))
    } else if word == "}"@ {
        if open.len() >= 2 {
            Some(close_top(open))
        } else {
            None
        }
    } else {
        Some(open.update(open.len() - 1, open.last().push(classify(word))))
    }
}

/// The contents of the outermost block once every block still open is
/// closed, innermost first.
pub open spec fn close_all(open: Seq<Seq<Term>>) -> Seq<Term>
    recommends
        open.len() >= 1,
    decreases open.len(),
{
    if open.len() >= 2 {
        close_all(close_top(open))
    } else if open.len() == 1 {
        open[0]
    } else {
        Seq::empty()
    }
}

/// The contents of the outermost block after `words` are read into the open
/// blocks. Reading stops at the end of the words or at the first empty word;
/// blocks left open are closed there. `None` where a `}` closes nothing.
pub open spec fn parse_from(open: Seq<Seq<Term>>, words: Seq<Seq<char>>) -> Option<Seq<Term>>
    recommends
        open.len() >= 1,
    decreases words.len(),
{
    if words.len() == 0 || words[0].len() == 0 {
        Some(close_all(open))
    } else {
        match feed(open, words[0]) {
            Some(next) => parse_from(next, words.drop_first()),
            None => None,
        }
    }
}

/// The program that `words` write: a block of the values read, with nested
/// blocks for `{` ... `}`. `None` where a `}` closes nothing.
pub open spec fn parse_words(words: Seq<Seq<char>>) -> Option<Term> {
    match parse_from(seq![Seq::empty()], words) {
        Some(items) => Some(Term::Block(items)),
        None => None,
    }
}

/// Parses whitespace-separated words into a program.
///
/// A block left open at the end of the words is closed there. A `}` with no
/// block open is the one error.
pub fn parse(input: &[&str]) -> (program: Result<Value, ParseError>)
    ensures
        match program {
            Ok(tree) => parse_words(words_of(input@)) == Some(tree@),
            Err(ParseError::UnmatchedBrackets(message)) => parse_words(words_of(input@)) is None
                && message@ == "Unmatched '}'"@,
        },
{
    let ghost words = words_of(input@);
    let mut context = ParseContext::new();
    context.push_block();
    assert(context@ =~= seq![Seq::<Term>::empty()]);
    assert(words.skip(0) == words);
    let mut i: usize = 0;
    while i < input.len() && !input[i].is_empty()
        invariant
            i <= input@.len(),
            words == words_of(input@),
            context@.len() >= 1,
            parse_from(context@, words.skip(i as int)) == parse_from(
                seq![Seq::<Term>::empty()],
                words,
            ),
        decreases input@.len() - i,
    {
        let word = input[i];
        proof {
            assert(words.skip(i as int)[0] == word@);
            assert(words.skip(i as int).drop_first() == words.skip(i + 1));
        }
        if str_eq(word, "{") {
            context.push_block();
        } else if str_eq(word, "}") {
            if context.blocks.len() < 2 {
                return Err(ParseError::UnmatchedBrackets("Unmatched '}'".to_owned()));
            }
            let ghost open = context@;
            let block = context.pop_block().unwrap();
            proof {
                lemma_block_view(block);
            }
            context.push(Value::Block(block));
            assert(context@ == close_top(open));
        } else {
            let code = match num_parse(word) {
                Ok(value) => value,
                Err(_) => match op_parse(word) {
                    Ok(operator) => operator,
                    Err(_) => sym_parse(word),
                },
            };
            assert(code@ == classify(word@));
            context.push(code);
        }
        i += 1;
    }
    assert(parse_from(context@, words.skip(i as int)) == Some(close_all(context@)));
    while context.blocks.len() > 1
        invariant
            context@.len() >= 1,
            parse_words(words_of(input@)) == Some(Term::Block(close_all(context@))),
        decreases context@.len(),
    {
        let ghost open = context@;
        let block = context.pop_block().unwrap();
        proof {
            lemma_block_view(block);
        }
        context.push(Value::Block(block));
        assert(context@ == close_top(open));
    }
    let items = context.pop_block().unwrap();
    proof {
        lemma_block_view(items);
    }
    Ok(Value::Block(items))
}

} // verus!
