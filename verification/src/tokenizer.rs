//! The tokenizer: from the raw arguments of a process to a bag of tokens.
//!
//! The first argument is the name of the program. The others are read from left to right.
//! Blank arguments are skipped. The argument `--` ends the options: what stands behind it
//! is kept as it is and never read. Every other argument is lexed to a token, and the
//! first one that is malformed ends the parse with an error.

use crate::bag::{any_operand, count, present, ArgumentBag, BagView};
use crate::text::{given, is_blank, program_name, str_eq, str_is_blank, views};
use crate::token::{lemma_render_lex, lex, lex_arg, tokens_of, Arg, ParseError, ParseErrorView, Token};
use vstd::prelude::*;

verus! {

/// The end-of-options marker, `--`.
pub open spec fn marker() -> Seq<char> {
    seq!['-', '-']
}

/// An argument that is not blank.
pub open spec fn not_blank() -> spec_fn(Seq<char>) -> bool {
    |a: Seq<char>| !is_blank(a)
}

/// The tokens of the arguments `items`, none of which is the marker; or the error of the
/// first argument that is malformed. An operand gets the number of operands before it.
pub open spec fn lex_all(items: Seq<Seq<char>>) -> Result<Seq<Token>, ParseErrorView>
    decreases items.len(),
{
    if items.len() == 0 {
        Ok(Seq::empty())
    } else {
        match lex_all(items.drop_last()) {
            Err(e) => Err(e),
            Ok(tokens) => {
                if is_blank(items.last()) {
                    Ok(tokens)
                } else {
                    match lex(items.last(), count(tokens, any_operand())) {
                        Ok(token) => Ok(tokens.push(token)),
                        Err(e) => Err(e),
                    }
                }
            },
        }
    }
}

/// Where the options end: the index of the first marker in `items`, or `items.len()`.
pub open spec fn end_of_options(items: Seq<Seq<char>>) -> int {
    match items.index_of_first(marker()) {
        Some(i) => i,
        None => items.len() as int,
    }
}

/// The arguments that are read: those before the marker.
pub open spec fn read(raw: Seq<Seq<char>>) -> Seq<Seq<char>> {
    given(raw).take(end_of_options(given(raw)))
}

/// The arguments that are not read: those behind the marker.
pub open spec fn unread(raw: Seq<Seq<char>>) -> Seq<Seq<char>> {
    if end_of_options(given(raw)) < given(raw).len() {
        given(raw).skip(end_of_options(given(raw)) + 1)
    } else {
        Seq::empty()
    }
}

/// The bag that the raw arguments make, or the error of the first malformed argument
/// before the marker.
pub open spec fn tokenize(raw: Seq<Seq<char>>) -> Result<BagView, ParseErrorView> {
    match lex_all(read(raw)) {
        Ok(tokens) => Ok(BagView { program_name: program_name(raw), tokens, ignored: unread(raw) }),
        Err(e) => Err(e),
    }
}

/// An index before which no marker stands, and which holds a marker or ends the sequence,
/// is where the options end.
pub proof fn lemma_end_of_options_is(items: Seq<Seq<char>>, i: int)
    requires
        0 <= i <= items.len(),
        forall|j: int| 0 <= j < i ==> items[j] != marker(),
        i < items.len() ==> items[i] == marker(),
    ensures
        end_of_options(items) == i,
{
    items.index_of_first_ensures(marker());
}

/// An error is final: the arguments behind a malformed one are never read.
pub proof fn lemma_error_is_final(items: Seq<Seq<char>>, k: int)
    requires
        0 <= k <= items.len(),
        lex_all(items.take(k)) is Err,
    ensures
        lex_all(items) == lex_all(items.take(k)),
    decreases items.len() - k,
{
    if k == items.len() {
        assert(items.take(k) =~= items);
    } else {
        assert(items.drop_last().take(k) =~= items.take(k));
        lemma_error_is_final(items.drop_last(), k);
    }
}

/// The tokens of a parse are numbered in order: every operand has a number below the count
/// of operands, and a smaller one than the operands behind it. No slot is empty.
pub proof fn lemma_lex_all_numbers(items: Seq<Seq<char>>)
    ensures
        lex_all(items) matches Ok(tokens) ==> {
            &&& (BagView { program_name: Seq::empty(), tokens, ignored: Seq::empty() }).wf()
            &&& forall|i: int|
                0 <= i < tokens.len() && (#[trigger] tokens[i]) is Operand ==> tokens[i]->position
                    < count(tokens, any_operand())
            &&& forall|i: int| 0 <= i < tokens.len() ==> !((#[trigger] tokens[i]) is Empty)
        },
    decreases items.len(),
{
    if items.len() > 0 {
        lemma_lex_all_numbers(items.drop_last());
        if let Ok(front) = lex_all(items.drop_last()) {
            if !is_blank(items.last()) {
                let n = count(front, any_operand());
                if let Ok(token) = lex(items.last(), n) {
                    Seq::lemma_filter_len_push(front, any_operand(), token);
                }
            }
        }
    }
}

/// The tokens of a parse read back as the arguments that were read, without the blank
/// ones, in their order.
pub proof fn lemma_lex_all_round_trip(items: Seq<Seq<char>>)
    ensures
        lex_all(items) matches Ok(tokens) ==> tokens.filter(present()).map_values(
            |t: Token| t.render(),
        ) == items.filter(not_blank()),
    decreases items.len(),
{
    reveal(Seq::filter);
    if items.len() > 0 {
        lemma_lex_all_round_trip(items.drop_last());
        if let Ok(front) = lex_all(items.drop_last()) {
            if !is_blank(items.last()) {
                let n = count(front, any_operand());
                if let Ok(token) = lex(items.last(), n) {
                    lemma_render_lex(items.last(), n);
                    Seq::lemma_filter_push(front, token, present());
                }
            }
        }
    }
}

/// Parsing and then taking what remains gives back the arguments: those between the
/// name of the program and the marker, without the blank ones, in their order and as
/// they were written. The bag of a parse is well formed.
pub proof fn lemma_round_trip(raw: Seq<Seq<char>>)
    ensures
        tokenize(raw) matches Ok(bag) ==> bag.remaining() == read(raw).filter(not_blank())
            && bag.wf(),
{
    lemma_lex_all_round_trip(read(raw));
    lemma_lex_all_numbers(read(raw));
}

/// Parses the given command line arguments into a bag.
///
/// The first argument is the name of the program. Without any argument the name is empty.
///
/// The end-of-options marker (`--`) is respected: the arguments behind it are not parsed
/// and are stored in the bag as they are.
pub fn parse(arguments: &[&str]) -> (r: Result<ArgumentBag, ParseError>)
    ensures
        match r {
            Ok(bag) => tokenize(views(arguments@)) == Ok::<BagView, ParseErrorView>(bag@)
                && bag@.wf(),
            Err(e) => tokenize(views(arguments@)) == Err::<BagView, ParseErrorView>(e@),
        },
{
    let ghost raw = views(arguments@);
    let ghost items = given(raw);
    let n = arguments.len();
    let program_name = if n == 0 {
        String::new()
    } else {
        arguments[0].to_owned()
    };
    let mut parsed: Vec<Arg> = Vec::new();
    let mut operands: usize = 0;
    let mut i: usize = 1;
    let mut at_marker = false;
    proof {
        assert(tokens_of(parsed@) =~= Seq::<Token>::empty());
    }
    while i < n
        invariant_except_break
            !at_marker,
        invariant
            1 <= i,
            n == arguments@.len(),
            i - 1 <= items.len(),
            raw == views(arguments@),
            items == given(raw),
            lex_all(items.take(i - 1)) == Ok::<Seq<Token>, ParseErrorView>(tokens_of(parsed@)),
            operands == count(tokens_of(parsed@), any_operand()),
            operands <= i - 1,
            forall|j: int| 0 <= j < i - 1 ==> items[j] != marker(),
        ensures
            at_marker ==> i < n && items[i - 1] == marker(),
            !at_marker ==> i >= n,
        decreases n - i,
    {
        let arg: &str = arguments[i];
        let ghost k = i - 1;
        let ghost tokens = tokens_of(parsed@);
        proof {
            reveal_strlit("--");
            assert("--"@ =~= marker());
            assert(items.take(k + 1).drop_last() =~= items.take(k));
        }
        if str_eq(arg, "--") {
            at_marker = true;
            break;
        }
        if !str_is_blank(arg) {
            match lex_arg(arg, operands) {
                Ok(token) => {
                    proof {
                        Seq::lemma_filter_len_push(tokens, any_operand(), token@);
                        assert(tokens_of(parsed@.push(token)) =~= tokens.push(token@));
                    }
                    if let Arg::Operand { .. } = &token {
                        operands = operands + 1;
                    }
                    parsed.push(token);
                },
                Err(e) => {
                    proof {
                        items.index_of_first_ensures(marker());
                        let cut = end_of_options(items);
                        assert(items.take(cut).take(k + 1) =~= items.take(k + 1));
                        lemma_error_is_final(items.take(cut), k + 1);
                    }
                    return Err(e);
                },
            }
        }
        i = i + 1;
    }
    let mut ignored: Vec<String> = Vec::new();
    if at_marker {
        proof {
            lemma_end_of_options_is(items, i - 1);
        }
        let mut j: usize = i + 1;
        while j < n
            invariant
                i < j <= n,
                n == arguments@.len(),
                raw == views(arguments@),
                items == given(raw),
                ignored.deep_view() == items.subrange(i as int, j - 1),
            decreases n - j,
        {
            let ghost before = ignored.deep_view();
            ignored.push(arguments[j].to_owned());
            assert(ignored.deep_view() =~= before.push(arguments@[j as int]@));
            j = j + 1;
        }
    } else {
        proof {
            if n > 0 {
                lemma_end_of_options_is(items, items.len() as int);
            } else {
                lemma_end_of_options_is(items, 0);
            }
            assert(ignored.deep_view() =~= unread(raw));
        }
    }
    proof {
        lemma_lex_all_numbers(read(raw));
    }
    Ok(ArgumentBag::assemble(program_name, parsed, ignored))
}

} // verus!
