//! How the result of parsing relates to the words: when parsing fails, and
//! where the words go.

use vstd::prelude::*;
use crate::laws::numbers::law_decimal_reads_back;
use crate::op::operator_of;
use crate::parse::Term;
use crate::parse::classify;
use crate::parse::close_all;
use crate::parse::close_top;
use crate::parse::feed;
use crate::parse::parse_from;
use crate::parse::parse_words;
use crate::parse::symbol_name;
use crate::text::decimal;
use crate::text::has_sign;
use crate::text::i32_literal;
use crate::text::is_digit;
use crate::text::lemma_split_gives_words;
use crate::text::nat_decimal;
use crate::text::split;

verus! {

/// The number of leaves of a term: the values in it, at any depth, that are
/// not blocks.
pub open spec fn leaf_count(t: Term) -> nat
    decreases t,
{
    match t {
        Term::Block(items) => leaves(items),
        _ => 1,
    }
}

/// The number of leaves in a sequence of terms.
pub open spec fn leaves(items: Seq<Term>) -> nat
    decreases items,
{
    if items.len() == 0 {
        0
    } else {
        leaves(items.drop_last()) + leaf_count(items.last())
    }
}

/// How many of `words` are the word `word`.
pub open spec fn occurrences(words: Seq<Seq<char>>, word: Seq<char>) -> nat
    decreases words.len(),
{
    if words.len() == 0 {
        0
    } else {
        occurrences(words.drop_first(), word) + if words[0] == word {
            1nat
        } else {
            0nat
        }
    }
}

/// How many more opening than closing brackets `words` hold.
pub open spec fn surplus(words: Seq<Seq<char>>) -> int {
    occurrences(words, "{"@) - occurrences(words, "}"@)
}

/// How many of `words` are not brackets.
pub open spec fn plain_words(words: Seq<Seq<char>>) -> int {
    words.len() - occurrences(words, "{"@) - occurrences(words, "}"@)
}

/// Whether none of `words` is empty, as is the case for words that come
/// from splitting text at white space.
pub open spec fn no_empty_word(words: Seq<Seq<char>>) -> bool {
    forall|i: int| 0 <= i < words.len() ==> (#[trigger] words[i]).len() > 0
}

/// Whether every closing bracket in `words` has an opening bracket of its
/// own before it: no start of `words` holds more `}` than `{`.
pub open spec fn closers_matched(words: Seq<Seq<char>>) -> bool {
    forall|k: int| 0 <= k <= words.len() ==> surplus(#[trigger] words.take(k)) >= 0
}

/// The number of leaves held by the open blocks together.
spec fn held(open: Seq<Seq<Term>>) -> nat
    decreases open.len(),
{
    if open.len() == 0 {
        0
    } else {
        held(open.drop_last()) + leaves(open.last())
    }
}

proof fn lemma_leaves_push(items: Seq<Term>, t: Term)
    ensures
        leaves(items.push(t)) == leaves(items) + leaf_count(t),
{
    assert(items.push(t).drop_last() == items);
}

proof fn lemma_held_push(open: Seq<Seq<Term>>, items: Seq<Term>)
    ensures
        held(open.push(items)) == held(open) + leaves(items),
{
    assert(open.push(items).drop_last() == open);
}

proof fn lemma_held_close_top(open: Seq<Seq<Term>>)
    requires
        open.len() >= 2,
    ensures
        held(close_top(open)) == held(open),
{
    let n = open.len() as int;
    let outer = open.drop_last().drop_last();
    let merged = open[n - 2].push(Term::Block(open[n - 1]));
    assert(close_top(open) == outer.push(merged));
    lemma_held_push(outer, merged);
    lemma_leaves_push(open[n - 2], Term::Block(open[n - 1]));
    assert(open.drop_last() == outer.push(open[n - 2]));
    lemma_held_push(outer, open[n - 2]);
}

proof fn lemma_close_all_keeps_leaves(open: Seq<Seq<Term>>)
    requires
        open.len() >= 1,
    ensures
        leaves(close_all(open)) == held(open),
    decreases open.len(),
{
    if open.len() >= 2 {
        lemma_held_close_top(open);
        lemma_close_all_keeps_leaves(close_top(open));
    } else {
        assert(held(open.drop_last()) == 0);
    }
}

/// What one more word adds to the number of open blocks.
spec fn opens(word: Seq<char>) -> int {
    if word == "{"@ {
        1
    } else if word == "}"@ {
        -1
    } else {
        0
    }
}

/// What reading `words` into the open blocks gives: it succeeds exactly
/// when no start of `words` closes more blocks than are open, and then every
/// leaf held before and every word that is no bracket is a leaf of the
/// result.
proof fn lemma_parse_from(open: Seq<Seq<Term>>, words: Seq<Seq<char>>)
    requires
        open.len() >= 1,
        no_empty_word(words),
    ensures
        parse_from(open, words) is Some <==> forall|k: int|
            0 <= k <= words.len() ==> surplus(#[trigger] words.take(k)) + open.len() - 1 >= 0,
        parse_from(open, words) is Some ==> leaves(parse_from(open, words)->0) == held(open)
            + plain_words(words),
    decreases words.len(),
{
    reveal_strlit("{");
    reveal_strlit("}");
    assert(words.take(0) == Seq::<Seq<char>>::empty());
    if words.len() == 0 {
        lemma_close_all_keeps_leaves(open);
        assert forall|k: int| 0 <= k <= words.len() implies surplus(#[trigger] words.take(k))
            + open.len() - 1 >= 0 by {
            assert(words.take(k) == Seq::<Seq<char>>::empty());
        }
    } else {
        let word = words[0];
        let rest = words.drop_first();
        let n = open.len() as int;
        assert(word.len() > 0);
        assert(no_empty_word(rest)) by {
            assert forall|i: int| 0 <= i < rest.len() implies (#[trigger] rest[i]).len() > 0 by {
                assert(rest[i] == words[i + 1]);
            }
        }
        assert forall|k: int| 1 <= k <= words.len() implies surplus(#[trigger] words.take(k))
            == opens(word) + surplus(rest.take(k - 1)) by {
            assert(words.take(k).drop_first() == rest.take(k - 1));
        }
        assert(plain_words(words) == plain_words(rest) + if opens(word) == 0 {
            1int
        } else {
            0int
        });
        match feed(open, word) {
            None => {
                assert(surplus(words.take(1)) + open.len() - 1 < 0) by {
                    assert(rest.take(0) == Seq::<Seq<char>>::empty());
                }
            },
            Some(next) => {
                assert(next.len() == n + opens(word));
                assert(held(next) == held(open) + if opens(word) == 0 {
                    1int
                } else {
                    0int
                }) by {
                    if word == "{"@ {
                        lemma_held_push(open, Seq::empty());
                    } else if word == "}"@ {
                        lemma_held_close_top(open);
                    } else {
                        let grown = open.last().push(classify(word));
                        assert(next == open.drop_last().push(grown));
                        assert(open == open.drop_last().push(open.last()));
                        lemma_held_push(open.drop_last(), grown);
                        lemma_held_push(open.drop_last(), open.last());
                        lemma_leaves_push(open.last(), classify(word));
                    }
                }
                lemma_parse_from(next, rest);
                if parse_from(next, rest) is Some {
                    assert forall|k: int| 0 <= k <= words.len() implies surplus(
                        #[trigger] words.take(k),
                    ) + open.len() - 1 >= 0 by {
                        if k > 0 {
                            assert(surplus(rest.take(k - 1)) + next.len() - 1 >= 0);
                        }
                    }
                } else {
                    let k = choose|k: int|
                        0 <= k <= rest.len() && !(surplus(#[trigger] rest.take(k)) + next.len() - 1
                            >= 0);
                    assert(surplus(words.take(k + 1)) + open.len() - 1 < 0);
                }
            },
        }
    }
}

/// None of the words of a line is empty: what holds of words without an
/// empty word holds of the words of every line.
pub proof fn law_line_has_no_empty_word(line: Seq<char>)
    ensures
        no_empty_word(split(line)),
{
    lemma_split_gives_words(line);
}

/// Parsing words of which none is empty fails exactly when some closing
/// bracket has no opening bracket of its own before it.
pub proof fn law_parse_fails_on_unmatched_closer_only(words: Seq<Seq<char>>)
    requires
        no_empty_word(words),
    ensures
        parse_words(words) is Some <==> closers_matched(words),
{
    lemma_parse_from(seq![Seq::empty()], words);
}

/// Parsing words of which none is empty, and in which each closing bracket
/// has an opening bracket of its own before it, gives a block with as many
/// leaves as there are words that are not brackets. This holds in
/// particular of every sequence whose brackets are balanced.
pub proof fn law_parse_keeps_every_plain_word(words: Seq<Seq<char>>)
    requires
        no_empty_word(words),
        closers_matched(words),
    ensures
        parse_words(words) is Some,
        parse_words(words)->0 is Block,
        leaf_count(parse_words(words)->0) == plain_words(words),
{
    let open = seq![Seq::<Term>::empty()];
    lemma_parse_from(open, words);
    assert(held(open.drop_last()) == 0);
}

/// Words that write the term `t`: a number in decimal, an operator by its
/// name, a symbol as a declaring occurrence, a block between brackets.
pub open spec fn spell(t: Term) -> Seq<Seq<char>>
    decreases t,
{
    match t {
        Term::Num(n) => seq![decimal(n as int)],
        Term::Op(name) => seq![name],
        Term::Sym(name) => seq![seq!['/'] + name],
        Term::Block(items) => seq!["{"@] + spell_all(items) + seq!["}"@],
    }
}

/// Words that write the terms `items` one after another.
pub open spec fn spell_all(items: Seq<Term>) -> Seq<Seq<char>>
    decreases items,
{
    if items.len() == 0 {
        Seq::empty()
    } else {
        spell(items[0]) + spell_all(items.drop_first())
    }
}

/// Whether `t` is a term that words can write: its operators are among the
/// keywords and its symbols have a name, at every depth.
pub open spec fn writable(t: Term) -> bool
    decreases t,
{
    match t {
        Term::Num(_) => true,
        Term::Op(name) => operator_of(name) is Some,
        Term::Sym(name) => name.len() > 0,
        Term::Block(items) => forall|i: int|
            0 <= i < items.len() ==> writable(#[trigger] items[i]),
    }
}

/// Whether each of `items` is a term that words can write.
pub open spec fn all_writable(items: Seq<Term>) -> bool {
    forall|i: int| 0 <= i < items.len() ==> writable(#[trigger] items[i])
}

/// The open blocks with `items` appended to the innermost.
spec fn with_items(open: Seq<Seq<Term>>, items: Seq<Term>) -> Seq<Seq<Term>> {
    open.update(open.len() - 1, open.last() + items)
}

/// Whether `word` is read as the one value `t`: it is not empty, it is no
/// bracket, and it classifies as `t`.
spec fn reads_as(word: Seq<char>, t: Term) -> bool {
    word.len() > 0 && word != "{"@ && word != "}"@ && classify(word) == t
}

/// An operator keyword is read as that operator.
proof fn lemma_keyword_reads_as_operator(name: Seq<char>)
    requires
        operator_of(name) is Some,
    ensures
        reads_as(name, Term::Op(name)),
{
    reveal_strlit("{");
    reveal_strlit("}");
    reveal_strlit("+");
    reveal_strlit("-");
    reveal_strlit("*");
    reveal_strlit("/");
    reveal_strlit("<");
    reveal_strlit(">");
    reveal_strlit("if");
    reveal_strlit("def");
    reveal_strlit("puts");
    assert(name.len() > 0);
    if has_sign(name) {
        assert(name.len() == 1);
    } else {
        assert(!is_digit(name[0]));
    }
    assert(name[0] != '{' && name[0] != '}');
}

/// The decimal text of a number is read as that number.
proof fn lemma_decimal_reads_as_number(n: i32)
    ensures
        reads_as(decimal(n as int), Term::Num(n)),
{
    reveal_strlit("{");
    reveal_strlit("}");
    law_decimal_reads_back(n);
    let word = decimal(n as int);
    assert(nat_decimal(
        if n < 0 {
            (-n) as nat
        } else {
            n as nat
        },
    ).len() >= 1);
    if word == "{"@ || word == "}"@ {
        assert(!is_digit(word[0]));
        assert(!has_sign(word));
    }
}

/// A name after a `/` is read as the symbol of that name.
proof fn lemma_declaration_reads_as_symbol(name: Seq<char>)
    requires
        name.len() > 0,
    ensures
        reads_as(seq!['/'] + name, Term::Sym(name)),
{
    reveal_strlit("{");
    reveal_strlit("}");
    reveal_strlit("+");
    reveal_strlit("-");
    reveal_strlit("*");
    reveal_strlit("/");
    reveal_strlit("<");
    reveal_strlit(">");
    reveal_strlit("if");
    reveal_strlit("def");
    reveal_strlit("puts");
    let word = seq!['/'] + name;
    assert(word[0] == '/');
    assert(word.len() >= 2);
    assert(!is_digit(word[0]));
    assert(!has_sign(word));
    assert(i32_literal(word) is None);
    assert(operator_of(word) is None);
    assert(symbol_name(word) == name);
}

/// Reading a word that is read as `t` appends `t` to the innermost block.
proof fn lemma_parse_word(open: Seq<Seq<Term>>, word: Seq<char>, t: Term, rest: Seq<Seq<char>>)
    requires
        open.len() >= 1,
        reads_as(word, t),
    ensures
        parse_from(open, seq![word] + rest) == parse_from(with_items(open, seq![t]), rest),
{
    let words = seq![word] + rest;
    assert(words[0] == word);
    assert(words.drop_first() == rest);
    assert(open.last().push(t) == open.last() + seq![t]);
}

/// Reading the words that write a term appends the term to the innermost
/// block.
proof fn lemma_parse_spelled(open: Seq<Seq<Term>>, t: Term, rest: Seq<Seq<char>>)
    requires
        open.len() >= 1,
        writable(t),
    ensures
        parse_from(open, spell(t) + rest) == parse_from(with_items(open, seq![t]), rest),
    decreases t, 0nat,
{
    match t {
        Term::Num(n) => {
            lemma_decimal_reads_as_number(n);
            lemma_parse_word(open, decimal(n as int), t, rest);
        },
        Term::Op(name) => {
            lemma_keyword_reads_as_operator(name);
            lemma_parse_word(open, name, t, rest);
        },
        Term::Sym(name) => {
            lemma_declaration_reads_as_symbol(name);
            lemma_parse_word(open, seq!['/'] + name, t, rest);
        },
        Term::Block(items) => {
            reveal_strlit("{");
            reveal_strlit("}");
            let inner = spell_all(items);
            let closing = seq!["}"@] + rest;
            let words = spell(t) + rest;
            let opened = open.push(Seq::empty());
            assert(words == seq!["{"@] + (inner + closing));
            assert(words[0] == "{"@);
            assert(words.drop_first() == inner + closing);
            assert(feed(open, "{"@) == Some(opened));
            lemma_parse_all_spelled(opened, items, closing);
            let filled = with_items(opened, items);
            assert(Seq::<Term>::empty() + items == items);
            assert(filled == open.push(items));
            assert("}"@ != "{"@) by {
                assert("}"@[0] != "{"@[0]);
            }
            assert(closing[0] == "}"@);
            assert(closing.drop_first() == rest);
            assert(close_top(filled) == with_items(open, seq![t])) by {
                assert(open.last().push(t) == open.last() + seq![t]);
            }
            assert(feed(filled, "}"@) == Some(close_top(filled)));
        },
    }
}

/// Reading the words that write some terms appends the terms to the
/// innermost block.
proof fn lemma_parse_all_spelled(open: Seq<Seq<Term>>, items: Seq<Term>, rest: Seq<Seq<char>>)
    requires
        open.len() >= 1,
        all_writable(items),
    ensures
        parse_from(open, spell_all(items) + rest) == parse_from(with_items(open, items), rest),
    decreases items, 1nat,
{
    if items.len() == 0 {
        assert(spell_all(items) + rest == rest);
        assert(open.last() + items == open.last());
        assert(with_items(open, items) == open);
    } else {
        let first = items[0];
        let others = items.drop_first();
        let tail = spell_all(others) + rest;
        assert(spell_all(items) + rest == spell(first) + tail);
        assert(all_writable(others)) by {
            assert forall|i: int| 0 <= i < others.len() implies writable(#[trigger] others[i]) by {
                assert(others[i] == items[i + 1]);
            }
        }
        lemma_parse_spelled(open, first, tail);
        let grown = with_items(open, seq![first]);
        lemma_parse_all_spelled(grown, others, rest);
        assert(with_items(grown, others) == with_items(open, items)) by {
            assert(open.last() + seq![first] + others == open.last() + items);
        }
    }
}

/// Every program of terms that words can write has a spelling, and parsing
/// the spelling gives the program back.
pub proof fn law_spelled_program_parses_back(items: Seq<Term>)
    requires
        all_writable(items),
    ensures
        parse_words(spell_all(items)) == Some(Term::Block(items)),
{
    let open = seq![Seq::<Term>::empty()];
    let words = spell_all(items);
    let none = Seq::<Seq<char>>::empty();
    assert(words + none == words);
    lemma_parse_all_spelled(open, items, none);
    assert(with_items(open, items) == seq![items]) by {
        assert(Seq::<Term>::empty() + items == items);
    }
}

/// Whether every value in every open block is a term that words can
/// write.
spec fn open_writable(open: Seq<Seq<Term>>) -> bool {
    forall|i: int| 0 <= i < open.len() ==> all_writable(#[trigger] open[i])
}

proof fn lemma_close_top_writable(open: Seq<Seq<Term>>)
    requires
        open.len() >= 2,
        open_writable(open),
    ensures
        open_writable(close_top(open)),
{
    let n = open.len() as int;
    let closed = close_top(open);
    assert(all_writable(open[n - 1]) && all_writable(open[n - 2]));
    assert(writable(Term::Block(open[n - 1])));
    assert forall|i: int| 0 <= i < closed.len() implies all_writable(#[trigger] closed[i]) by {
        if i < n - 2 {
            assert(closed[i] == open[i]);
        }
    }
}

proof fn lemma_close_all_writable(open: Seq<Seq<Term>>)
    requires
        open.len() >= 1,
        open_writable(open),
    ensures
        all_writable(close_all(open)),
    decreases open.len(),
{
    if open.len() >= 2 {
        lemma_close_top_writable(open);
        lemma_close_all_writable(close_top(open));
    } else {
        assert(all_writable(open[0]));
    }
}

/// A word that is not empty classifies as a term that words can write.
proof fn lemma_classify_writable(word: Seq<char>)
    requires
        word.len() > 0,
    ensures
        writable(classify(word)),
{
    reveal_strlit("/");
    if word[0] == '/' && word.len() == 1 {
        assert(word == "/"@);
    }
}

proof fn lemma_parse_from_writable(open: Seq<Seq<Term>>, words: Seq<Seq<char>>)
    requires
        open.len() >= 1,
        open_writable(open),
    ensures
        parse_from(open, words) is Some ==> all_writable(parse_from(open, words)->0),
    decreases words.len(),
{
    if words.len() == 0 || words[0].len() == 0 {
        lemma_close_all_writable(open);
    } else {
        let word = words[0];
        match feed(open, word) {
            Some(next) => {
                assert(open_writable(next)) by {
                    if word == "{"@ {
                        assert forall|i: int| 0 <= i < next.len() implies all_writable(
                            #[trigger] next[i],
                        ) by {
                            if i < open.len() {
                                assert(next[i] == open[i]);
                            }
                        }
                    } else if word == "}"@ {
                        lemma_close_top_writable(open);
                    } else {
                        lemma_classify_writable(word);
                        assert(all_writable(open.last()));
                        assert forall|i: int| 0 <= i < next.len() implies all_writable(
                            #[trigger] next[i],
                        ) by {
                            if i < open.len() - 1 {
                                assert(next[i] == open[i]);
                            }
                        }
                    }
                }
                lemma_parse_from_writable(next, words.drop_first());
            },
            None => {},
        }
    }
}

/// Whatever the words, the program that parsing gives holds only terms that
/// words can write: each of its operators is one of the keywords, and each
/// of its symbols has a name.
pub proof fn law_parsed_program_is_writable(words: Seq<Seq<char>>)
    ensures
        parse_words(words) is Some ==> writable(parse_words(words)->0),
{
    let open = seq![Seq::<Term>::empty()];
    assert(open_writable(open)) by {
        assert(all_writable(open[0]));
    }
    lemma_parse_from_writable(open, words);
}

} // verus!
