//! The argument bag: a token sequence from which flags, options and operands are taken.
//!
//! Taking a token leaves an empty slot behind. Slots are never removed, so that a token
//! keeps its neighbours and an operand keeps its number, whatever was taken before.
//!
//! A switch that is followed by an operand can be read in two ways: as a flag and an
//! operand, or as an option and its value. The bag does not decide. The first call that
//! claims the switch does: `remove_option` takes the switch and the operand behind it,
//! `remove_flag` takes the switch alone.

use crate::search::{first_match, lemma_first_match, lemma_first_match_is};
use crate::text::str_eq;
use crate::token::{tokens_of, Arg, Token};
use vstd::prelude::*;

verus! {

/// A bag of arguments as a mathematical value.
pub struct BagView {
    /// The name of the program being run.
    pub program_name: Seq<char>,
    /// The slots, in the order of the arguments that filled them.
    pub tokens: Seq<Token>,
    /// The arguments that stood behind the end-of-options marker, as they were given.
    pub ignored: Seq<Seq<char>>,
}

/// The flag called `name`.
pub open spec fn flag_named(name: Seq<char>) -> spec_fn(Token) -> bool {
    |t: Token| t == (Token::Switch { name })
}

/// A switch called `name`, with a value or without.
pub open spec fn switch_named(name: Seq<char>) -> spec_fn(Token) -> bool {
    |t: Token|
        match t {
            Token::Switch { name: n } => n == name,
            Token::SwitchWithValue { name: n, .. } => n == name,
            _ => false,
        }
}

/// Any operand.
pub open spec fn any_operand() -> spec_fn(Token) -> bool {
    |t: Token| t is Operand
}

/// The operand with the number `position`.
pub open spec fn operand_at(position: nat) -> spec_fn(Token) -> bool {
    |t: Token|
        match t {
            Token::Operand { position: p, .. } => p == position,
            _ => false,
        }
}

/// A slot that still holds a token.
pub open spec fn present() -> spec_fn(Token) -> bool {
    |t: Token| !(t is Empty)
}

/// How many tokens meet `wanted`.
pub open spec fn count(tokens: Seq<Token>, wanted: spec_fn(Token) -> bool) -> nat {
    tokens.filter(wanted).len()
}

impl BagView {
    /// The bag with slot `i` emptied.
    pub open spec fn cleared(self, i: int) -> BagView {
        BagView { tokens: self.tokens.update(i, Token::Empty), ..self }
    }

    /// Numbers grow along the slots: an operand has a smaller number than every operand
    /// behind it. In particular no two operands share a number.
    pub open spec fn wf(self) -> bool {
        forall|i: int, j: int|
            0 <= i < j < self.tokens.len() && (#[trigger] self.tokens[i]) is Operand && (
            #[trigger] self.tokens[j]) is Operand ==> self.tokens[i]->position
                < self.tokens[j]->position
    }

    /// Taking the first flag called `name`: whether there was one, and the bag afterwards.
    pub open spec fn remove_flag(self, name: Seq<char>) -> (bool, BagView) {
        let i = first_match(self.tokens, flag_named(name));
        if i < self.tokens.len() {
            (true, self.cleared(i))
        } else {
            (false, self)
        }
    }

    /// Taking the option called `name`: its value, and the bag afterwards.
    ///
    /// The first switch called `name` decides. If it has a value, the value is taken with
    /// it. If it has none and an operand fills the very next slot, both are taken, and the
    /// operand is the value. Otherwise nothing is taken, even if a later switch would do.
    pub open spec fn remove_option(self, name: Seq<char>) -> (Option<Seq<char>>, BagView) {
        let i = first_match(self.tokens, switch_named(name));
        if i >= self.tokens.len() {
            (None, self)
        } else {
            match self.tokens[i] {
                Token::SwitchWithValue { value, .. } => (Some(value), self.cleared(i)),
                _ => {
                    if i + 1 < self.tokens.len() && self.tokens[i + 1] is Operand {
                        (Some(self.tokens[i + 1]->Operand_value), self.cleared(i).cleared(i + 1))
                    } else {
                        (None, self)
                    }
                },
            }
        }
    }

    /// Taking the first operand that is left: its value, and the bag afterwards.
    pub open spec fn remove_operand(self) -> (Option<Seq<char>>, BagView) {
        let i = first_match(self.tokens, any_operand());
        if i < self.tokens.len() {
            (Some(self.tokens[i]->Operand_value), self.cleared(i))
        } else {
            (None, self)
        }
    }

    /// Taking the operand with the number `position`: its value, and the bag afterwards.
    pub open spec fn remove_operand_at(self, position: nat) -> (Option<Seq<char>>, BagView) {
        let i = first_match(self.tokens, operand_at(position));
        if i < self.tokens.len() {
            (Some(self.tokens[i]->Operand_value), self.cleared(i))
        } else {
            (None, self)
        }
    }

    /// The canonical texts of the tokens that are left, in their order.
    pub open spec fn remaining(self) -> Seq<Seq<char>> {
        self.tokens.filter(present()).map_values(|t: Token| t.render())
    }

    /// The bag with every slot emptied.
    pub open spec fn drained(self) -> BagView {
        BagView { tokens: Seq::new(self.tokens.len(), |i: int| Token::Empty), ..self }
    }

    /// The bag without its ignored arguments.
    pub open spec fn without_ignored(self) -> BagView {
        BagView { ignored: Seq::empty(), ..self }
    }

    /// No token is left. The ignored arguments do not count.
    pub open spec fn is_empty(self) -> bool {
        forall|i: int| 0 <= i < self.tokens.len() ==> (#[trigger] self.tokens[i]) is Empty
    }
}

/// Emptying a slot that meets `wanted`, where no empty slot does, leaves one match fewer.
pub proof fn lemma_cleared_count(tokens: Seq<Token>, wanted: spec_fn(Token) -> bool, i: int)
    requires
        0 <= i < tokens.len(),
        wanted(tokens[i]),
        !wanted(Token::Empty),
    ensures
        count(tokens.update(i, Token::Empty), wanted) == count(tokens, wanted) - 1,
    decreases tokens.len(),
{
    reveal(Seq::filter);
    let after = tokens.update(i, Token::Empty);
    if i == tokens.len() - 1 {
        assert(after.drop_last() =~= tokens.drop_last());
    } else {
        lemma_cleared_count(tokens.drop_last(), wanted, i);
        assert(after.drop_last() =~= tokens.drop_last().update(i, Token::Empty));
    }
}

/// There is a match exactly when `first_match` finds one.
pub proof fn lemma_count_first_match(tokens: Seq<Token>, wanted: spec_fn(Token) -> bool)
    ensures
        count(tokens, wanted) > 0 <==> first_match(tokens, wanted) < tokens.len(),
    decreases tokens.len(),
{
    reveal(Seq::filter);
    if tokens.len() > 0 {
        let front = tokens.drop_last();
        lemma_count_first_match(front, wanted);
        lemma_first_match(front, wanted);
        let k = first_match(front, wanted);
        if k < front.len() {
            assert forall|j: int| 0 <= j < k implies !wanted(#[trigger] tokens[j]) by {
                assert(tokens[j] == front[j]);
            }
            lemma_first_match_is(tokens, wanted, k);
        } else {
            assert forall|j: int| 0 <= j < front.len() implies !wanted(#[trigger] tokens[j]) by {
                assert(tokens[j] == front[j]);
            }
            if wanted(tokens.last()) {
                lemma_first_match_is(tokens, wanted, tokens.len() - 1);
            } else {
                lemma_first_match_is(tokens, wanted, tokens.len() as int);
            }
        }
    }
}

/// Each call of `remove_flag` takes one flag of that name: it succeeds exactly when one
/// is left, and leaves one fewer.
pub proof fn lemma_remove_flag_takes_one(bag: BagView, name: Seq<char>)
    ensures
        bag.remove_flag(name).0 <==> count(bag.tokens, flag_named(name)) > 0,
        bag.remove_flag(name).0 ==> count(bag.remove_flag(name).1.tokens, flag_named(name))
            == count(bag.tokens, flag_named(name)) - 1,
{
    lemma_count_first_match(bag.tokens, flag_named(name));
    lemma_first_match(bag.tokens, flag_named(name));
    let i = first_match(bag.tokens, flag_named(name));
    if i < bag.tokens.len() {
        lemma_cleared_count(bag.tokens, flag_named(name), i);
    }
}

/// Once the only flag called `name` has been taken, a second call finds none.
pub proof fn lemma_remove_flag_once(bag: BagView, name: Seq<char>)
    requires
        count(bag.tokens, flag_named(name)) <= 1,
    ensures
        bag.remove_flag(name).0 ==> bag.remove_flag(name).1.remove_flag(name) == (
            false,
            bag.remove_flag(name).1,
        ),
{
    lemma_remove_flag_takes_one(bag, name);
    lemma_remove_flag_takes_one(bag.remove_flag(name).1, name);
}

/// Once the only switch called `name` has been taken as an option, a second call finds
/// none.
pub proof fn lemma_remove_option_once(bag: BagView, name: Seq<char>)
    requires
        count(bag.tokens, switch_named(name)) <= 1,
    ensures
        bag.remove_option(name).0 is Some ==> bag.remove_option(name).1.remove_option(name) == (
            None::<Seq<char>>,
            bag.remove_option(name).1,
        ),
{
    let wanted = switch_named(name);
    lemma_first_match(bag.tokens, wanted);
    let i = first_match(bag.tokens, wanted);
    if bag.remove_option(name).0 is Some {
        lemma_cleared_count(bag.tokens, wanted, i);
        let after = bag.remove_option(name).1;
        let one = bag.cleared(i);
        if after != one {
            lemma_update_keeps_count(one.tokens, wanted, i + 1);
        }
        lemma_count_first_match(after.tokens, wanted);
    }
}

/// Emptying a slot that does not meet `wanted`, where no empty slot does, keeps the count.
pub proof fn lemma_update_keeps_count(tokens: Seq<Token>, wanted: spec_fn(Token) -> bool, i: int)
    requires
        0 <= i < tokens.len(),
        !wanted(tokens[i]),
        !wanted(Token::Empty),
    ensures
        count(tokens.update(i, Token::Empty), wanted) == count(tokens, wanted),
    decreases tokens.len(),
{
    reveal(Seq::filter);
    let after = tokens.update(i, Token::Empty);
    if i == tokens.len() - 1 {
        assert(after.drop_last() =~= tokens.drop_last());
    } else {
        lemma_update_keeps_count(tokens.drop_last(), wanted, i);
        assert(after.drop_last() =~= tokens.drop_last().update(i, Token::Empty));
    }
}

/// Once an operand has been taken by its number, a second call with that number finds
/// none: taking an operand does not renumber the others.
pub proof fn lemma_remove_operand_at_once(bag: BagView, position: nat)
    requires
        bag.wf(),
    ensures
        bag.remove_operand_at(position).0 is Some ==> bag.remove_operand_at(
            position,
        ).1.remove_operand_at(position) == (
            None::<Seq<char>>,
            bag.remove_operand_at(position).1,
        ),
{
    let wanted = operand_at(position);
    lemma_first_match(bag.tokens, wanted);
    let i = first_match(bag.tokens, wanted);
    if i < bag.tokens.len() {
        let after = bag.cleared(i);
        lemma_first_match_is(after.tokens, wanted, after.tokens.len() as int);
    }
}

/// A switch directly followed by an operand can be claimed either way. Let the first
/// switch called `name` be a flag in slot `i`, and the operand number `position` fill slot
/// `i + 1`. Then `remove_option` takes both and returns the operand; `remove_flag`
/// followed by `remove_operand_at` takes the same two tokens one after the other.
pub proof fn lemma_claim_order(bag: BagView, name: Seq<char>, i: int, position: nat)
    requires
        bag.wf(),
        0 <= i,
        i + 1 < bag.tokens.len(),
        first_match(bag.tokens, switch_named(name)) == i,
        bag.tokens[i] is Switch,
        bag.tokens[i + 1] is Operand,
        bag.tokens[i + 1]->position == position,
    ensures
        bag.remove_option(name) == (
            Some(bag.tokens[i + 1]->Operand_value),
            bag.cleared(i).cleared(i + 1),
        ),
        bag.remove_flag(name) == (true, bag.cleared(i)),
        bag.cleared(i).remove_operand_at(position) == bag.remove_option(name),
{
    lemma_first_match(bag.tokens, switch_named(name));
    lemma_first_match_is(bag.tokens, flag_named(name), i);
    let one = bag.cleared(i);
    lemma_first_match_is(one.tokens, operand_at(position), i + 1);
}

/// After draining, nothing remains and the bag is empty.
pub proof fn lemma_drained(bag: BagView)
    ensures
        bag.drained().is_empty(),
        bag.drained().remaining() == Seq::<Seq<char>>::empty(),
        bag.drained().drained() == bag.drained(),
{
    lemma_empty_remaining(bag.drained());
}

/// Nothing remains of an empty bag.
pub proof fn lemma_empty_remaining(bag: BagView)
    requires
        bag.is_empty(),
    ensures
        bag.remaining() == Seq::<Seq<char>>::empty(),
{
    lemma_filter_none(bag.tokens);
}

proof fn lemma_filter_none(tokens: Seq<Token>)
    requires
        forall|i: int| 0 <= i < tokens.len() ==> (#[trigger] tokens[i]) is Empty,
    ensures
        tokens.filter(present()).len() == 0,
    decreases tokens.len(),
{
    reveal(Seq::filter);
    if tokens.len() > 0 {
        lemma_filter_none(tokens.drop_last());
    }
}

/// A bag of parsed command line arguments.
#[derive(Debug, PartialEq, Eq)]
pub struct ArgumentBag {
    /// The name of the program being run.
    pub program_name: String,
    args: Vec<Arg>,
    ignored: Vec<String>,
}

impl View for ArgumentBag {
    type V = BagView;

    closed spec fn view(&self) -> BagView {
        BagView {
            program_name: self.program_name@,
            tokens: self.tokens(),
            ignored: self.ignored(),
        }
    }
}

impl Default for ArgumentBag {
    /// A bag without a program name and without arguments.
    fn default() -> (bag: Self)
        ensures
            bag@ == (BagView {
                program_name: Seq::empty(),
                tokens: Seq::empty(),
                ignored: Seq::empty(),
            }),
    {
        let bag = ArgumentBag { program_name: String::new(), args: Vec::new(), ignored: Vec::new() };
        assert(bag.tokens() =~= Seq::<Token>::empty());
        assert(bag.ignored() =~= Seq::<Seq<char>>::empty());
        bag
    }
}

impl Clone for ArgumentBag {
    fn clone(&self) -> (copy: Self)
        ensures
            copy@ == self@,
    {
        let mut args: Vec<Arg> = Vec::new();
        let mut i: usize = 0;
        while i < self.args.len()
            invariant
                i <= self.args.len(),
                tokens_of(args@) == tokens_of(self.args@.take(i as int)),
            decreases self.args.len() - i,
        {
            let ghost before = args@;
            let arg = self.args[i].clone();
            args.push(arg);
            i = i + 1;
            assert(tokens_of(args@) =~= tokens_of(self.args@.take(i as int))) by {
                assert(tokens_of(before.push(arg)) =~= tokens_of(before).push(arg@));
            }
        }
        assert(self.args@.take(self.args.len() as int) =~= self.args@);
        let mut ignored: Vec<String> = Vec::new();
        let mut i: usize = 0;
        while i < self.ignored.len()
            invariant
                i <= self.ignored.len(),
                ignored.deep_view() == self.ignored.deep_view().take(i as int),
            decreases self.ignored.len() - i,
        {
            let ghost before = ignored.deep_view();
            ignored.push(self.ignored[i].clone());
            i = i + 1;
            assert(ignored.deep_view() =~= before.push(self.ignored@[i - 1]@));
        }
        assert(self.ignored.deep_view().take(self.ignored.len() as int) =~= self.ignored.deep_view());
        ArgumentBag { program_name: self.program_name.clone(), args, ignored }
    }
}

impl ArgumentBag {
    spec fn tokens(&self) -> Seq<Token> {
        tokens_of(self.args@)
    }

    spec fn ignored(&self) -> Seq<Seq<char>> {
        self.ignored.deep_view()
    }

    /// The name of the program being run.
    pub fn program(&self) -> (name: &str)
        ensures
            name@ == self@.program_name,
    {
        self.program_name.as_str()
    }

    /// A bag of the given tokens.
    pub(crate) fn assemble(program_name: String, args: Vec<Arg>, ignored: Vec<String>) -> (bag:
        Self)
        ensures
            bag@ == (BagView {
                program_name: program_name@,
                tokens: tokens_of(args@),
                ignored: ignored.deep_view(),
            }),
    {
        ArgumentBag { program_name, args, ignored }
    }

    /// Empties slot `i` and hands out the token that filled it.
    fn take(&mut self, i: usize) -> (taken: Arg)
        requires
            i < old(self).tokens().len(),
        ensures
            taken@ == old(self)@.tokens[i as int],
            final(self)@ == old(self)@.cleared(i as int),
            final(self).args@.len() == old(self).args@.len(),
            final(self).program_name == old(self).program_name,
            final(self).ignored == old(self).ignored,
    {
        let mut taken = Arg::Empty;
        core::mem::swap(&mut self.args[i], &mut taken);
        assert(self.tokens() =~= old(self).tokens().update(i as int, Token::Empty));
        taken
    }

    /// Removes the first flag with the given name from the bag, if there is one.
    pub fn remove_flag(&mut self, name: &str) -> (found: bool)
        ensures
            (found, final(self)@) == old(self)@.remove_flag(name@),
            old(self)@.wf() ==> final(self)@.wf(),
    {
        let ghost wanted = flag_named(name@);
        let mut i: usize = 0;
        while i < self.args.len()
            invariant
                i <= self.args.len(),
                *self == *old(self),
                wanted == flag_named(name@),
                forall|j: int| 0 <= j < i ==> !wanted(#[trigger] self.tokens()[j]),
            decreases self.args.len() - i,
        {
            let hit = match &self.args[i] {
                Arg::Switch { name: n } => str_eq(n.as_str(), name),
                _ => false,
            };
            if hit {
                proof {
                    lemma_first_match_is(self.tokens(), wanted, i as int);
                    if self@.wf() {
                    }
                }
                let _ = self.take(i);
                return true;
            }
            i = i + 1;
        }
        proof {
            lemma_first_match_is(self.tokens(), wanted, self.tokens().len() as int);
        }
        false
    }

    /// Removes the first option with the given name and returns its value.
    ///
    /// An option is a switch with a value (`--name=value`), or a switch without one that
    /// is directly followed by an operand (`--name value`). A switch without a value that
    /// is followed by anything else is a flag: the result is `None` and nothing is removed.
    pub fn remove_option(&mut self, name: &str) -> (value: Option<String>)
        ensures
            (
                match value {
                    Some(v) => Some(v@),
                    None => None,
                },
                final(self)@,
            ) == old(self)@.remove_option(name@),
            old(self)@.wf() ==> final(self)@.wf(),
    {
        let ghost wanted = switch_named(name@);
        let mut i: usize = 0;
        while i < self.args.len()
            invariant
                i <= self.args.len(),
                *self == *old(self),
                wanted == switch_named(name@),
                forall|j: int| 0 <= j < i ==> !wanted(#[trigger] self.tokens()[j]),
            decreases self.args.len() - i,
        {
            let (hit, has_value) = match &self.args[i] {
                Arg::Switch { name: n } => (str_eq(n.as_str(), name), false),
                Arg::SwitchWithValue { name: n, .. } => (str_eq(n.as_str(), name), true),
                _ => (false, false),
            };
            if hit {
                proof {
                    lemma_first_match_is(self.tokens(), wanted, i as int);
                    if self@.wf() {
                    }
                }
                if has_value {
                    let taken = self.take(i);
                    return Some(taken.into_switch_with_value());
                }
                let followed = i + 1 < self.args.len() && match &self.args[i + 1] {
                    Arg::Operand { .. } => true,
                    _ => false,
                };
                if !followed {
                    return None;
                }
                proof {
                    if self@.wf() {
                    }
                }
                let _ = self.take(i);
                let operand = self.take(i + 1);
                return Some(operand.into_operand());
            }
            i = i + 1;
        }
        proof {
            lemma_first_match_is(self.tokens(), wanted, self.tokens().len() as int);
        }
        None
    }

    /// Removes the next operand from the bag, if there is one.
    ///
    /// Operands are removed in the order they were given.
    pub fn remove_operand(&mut self) -> (value: Option<String>)
        ensures
            (
                match value {
                    Some(v) => Some(v@),
                    None => None,
                },
                final(self)@,
            ) == old(self)@.remove_operand(),
            old(self)@.wf() ==> final(self)@.wf(),
    {
        let ghost wanted = any_operand();
        let mut i: usize = 0;
        while i < self.args.len()
            invariant
                i <= self.args.len(),
                *self == *old(self),
                wanted == any_operand(),
                forall|j: int| 0 <= j < i ==> !wanted(#[trigger] self.tokens()[j]),
            decreases self.args.len() - i,
        {
            let hit = match &self.args[i] {
                Arg::Operand { .. } => true,
                _ => false,
            };
            if hit {
                proof {
                    lemma_first_match_is(self.tokens(), wanted, i as int);
                    if self@.wf() {
                    }
                }
                let taken = self.take(i);
                return Some(taken.into_operand());
            }
            i = i + 1;
        }
        proof {
            lemma_first_match_is(self.tokens(), wanted, self.tokens().len() as int);
        }
        None
    }

    /// Removes the operand that was given as number `position`, counting from 0, if it is
    /// still there.
    ///
    /// An operand keeps its number when others are removed.
    pub fn remove_operand_at(&mut self, position: usize) -> (value: Option<String>)
        ensures
            (
                match value {
                    Some(v) => Some(v@),
                    None => None,
                },
                final(self)@,
            ) == old(self)@.remove_operand_at(position as nat),
            old(self)@.wf() ==> final(self)@.wf(),
    {
        let ghost wanted = operand_at(position as nat);
        let mut i: usize = 0;
        while i < self.args.len()
            invariant
                i <= self.args.len(),
                *self == *old(self),
                wanted == operand_at(position as nat),
                forall|j: int| 0 <= j < i ==> !wanted(#[trigger] self.tokens()[j]),
            decreases self.args.len() - i,
        {
            let hit = match &self.args[i] {
                Arg::Operand { position: p, .. } => *p == position,
                _ => false,
            };
            if hit {
                proof {
                    lemma_first_match_is(self.tokens(), wanted, i as int);
                    if self@.wf() {
                    }
                }
                let taken = self.take(i);
                return Some(taken.into_operand());
            }
            i = i + 1;
        }
        proof {
            lemma_first_match_is(self.tokens(), wanted, self.tokens().len() as int);
        }
        None
    }

    /// Removes the flags, options and operands that are left, and returns their canonical
    /// texts in the order they were given.
    ///
    /// A later call returns an empty `Vec`. The arguments behind the end-of-options marker
    /// are not among them: see `remove_ignored`.
    pub fn remove_remaining(&mut self) -> (leftover: Vec<String>)
        ensures
            leftover.deep_view() == old(self)@.remaining(),
            final(self)@ == old(self)@.drained(),
            final(self)@.wf(),
    {
        let ghost before = self.tokens();
        let mut leftover: Vec<String> = Vec::new();
        let mut i: usize = 0;
        proof {
        }
        while i < self.args.len()
            invariant
                i <= self.args.len(),
                before == old(self).tokens(),
                self.args@.len() == before.len(),
                self.program_name == old(self).program_name,
                self.ignored == old(self).ignored,
                forall|j: int| 0 <= j < i ==> (#[trigger] self.tokens()[j]) is Empty,
                forall|j: int| i <= j < before.len() ==> #[trigger] self.tokens()[j] == before[j],
                leftover.deep_view() == before.take(i as int).filter(present()).map_values(
                    |t: Token| t.render(),
                ),
            decreases self.args.len() - i,
        {
            let ghost done = before.take(i as int);
            let ghost found = leftover.deep_view();
            proof {
                assert(self.tokens()[i as int] == before[i as int]);
                assert(before.take(i + 1) =~= done.push(before[i as int]));
                Seq::lemma_filter_push(done, before[i as int], present());
            }
            if !self.args[i].is_empty() {
                let taken = self.take(i);
                let text = taken.render();
                leftover.push(text);
                proof {
                    assert(before.take(i + 1).filter(present()).map_values(|t: Token| t.render())
                        =~= found.push(before[i as int].render()));
                }
            }
            i = i + 1;
        }
        proof {
            assert(before.take(i as int) =~= before);
            assert(self.tokens() =~= old(self)@.drained().tokens);
        }
        leftover
    }

    /// Removes and returns the arguments that stood behind the end-of-options marker
    /// (`--`), as they were given.
    ///
    /// A later call returns an empty `Vec`.
    pub fn remove_ignored(&mut self) -> (ignored: Vec<String>)
        ensures
            ignored.deep_view() == old(self)@.ignored,
            final(self)@ == old(self)@.without_ignored(),
    {
        let ignored = self.ignored.split_off(0);
        assert(self.ignored.deep_view() =~= Seq::<Seq<char>>::empty());
        ignored
    }

    /// Whether no flag, option or operand is left. Ignored arguments are not counted.
    pub fn is_empty(&self) -> (empty: bool)
        ensures
            empty == self@.is_empty(),
    {
        let mut i: usize = 0;
        while i < self.args.len()
            invariant
                i <= self.args.len(),
                forall|j: int| 0 <= j < i ==> (#[trigger] self.tokens()[j]) is Empty,
            decreases self.args.len() - i,
        {
            if !self.args[i].is_empty() {
                assert(!(self.tokens()[i as int] is Empty));
                return false;
            }
            i = i + 1;
        }
        true
    }
}

} // verus!
