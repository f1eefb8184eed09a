//! What a terminal is told to do, and how text is put together.
use crate::parser::joined;
use vstd::prelude::*;

verus! {

/// Something that a terminal is told to do.
#[derive(Clone, Debug, PartialEq)]
pub enum Action<A> {
    /// Show a character.
    Print(char),
    /// Show some text.
    PrintString(String),
    /// Anything else.
    Other(A),
}

/// The contents of an action.
#[verifier::ext_equal]
pub enum Doing<A> {
    Print(char),
    PrintString(Seq<char>),
    Other(A),
}

impl<A> View for Action<A> {
    type V = Doing<A>;

    open spec fn view(&self) -> Doing<A> {
        match *self {
            Action::Print(c) => Doing::Print(c),
            Action::PrintString(text) => Doing::PrintString(text@),
            Action::Other(action) => Doing::Other(action),
        }
    }
}

/// The contents of a list of actions.
pub open spec fn doings<A>(actions: Seq<Action<A>>) -> Seq<Doing<A>> {
    actions.map_values(|a: Action<A>| a@)
}

/// A list with one more action. A character that follows text joins it.
pub open spec fn appended<A>(list: Seq<Doing<A>>, action: Doing<A>) -> Seq<Doing<A>> {
    match action {
        Doing::Print(c) => if list.len() == 0 {
            list.push(action)
        } else {
            match list.last() {
                Doing::Print(before) => list.drop_last().push(
                    Doing::PrintString(seq![before, c]),
                ),
                Doing::PrintString(text) => list.drop_last().push(
                    Doing::PrintString(text.push(c)),
                ),
                Doing::Other(other) => list.push(action),
            }
        },
        _ => list.push(action),
    }
}

/// A list that comes of appending actions one after another.
pub open spec fn coalesced<A>(actions: Seq<Doing<A>>) -> Seq<Doing<A>>
    decreases actions.len(),
{
    if actions.len() == 0 {
        Seq::empty()
    } else {
        appended(coalesced(actions.drop_last()), actions.last())
    }
}

impl<A> Action<A> {
    /// Appends the action to a list. A character that follows text joins it.
    pub fn append_to(self, list: &mut Vec<Action<A>>)
        ensures
            doings(final(list)@) == appended(doings(old(list)@), self@),
    {
        let ghost before = list@;
        let ghost action = self@;
        match self {
            Action::Print(c) => match list.pop() {
                None => {
                    list.push(Action::Print(c));
                },
                Some(last) => {
                    proof {
                        assert(doings(list@) =~= doings(before).drop_last());
                        assert(last@ == doings(before).last());
                    }
                    match last {
                        Action::Print(b) => {
                            let mut text = String::new();
                            text.push(b);
                            text.push(c);
                            assert(text@ =~= seq![b, c]);
                            list.push(Action::PrintString(text));
                        },
                        Action::PrintString(text) => {
                            let mut text = text;
                            text.push(c);
                            list.push(Action::PrintString(text));
                        },
                        Action::Other(other) => {
                            list.push(Action::Other(other));
                            assert(doings(list@) =~= doings(before));
                            list.push(Action::Print(c));
                        },
                    }
                },
            },
            other => {
                list.push(other);
            },
        }
        assert(doings(list@) =~= appended(doings(before), action));
    }
}

/// Puts a list together by appending actions one after another.
pub fn coalesce<A>(actions: Vec<Action<A>>) -> (list: Vec<Action<A>>)
    ensures
        doings(list@) == coalesced(doings(actions@)),
{
    let ghost all = actions@;
    let mut list: Vec<Action<A>> = Vec::new();
    proof {
        assert(doings(all.take(0)) =~= Seq::empty());
        assert(doings(list@) =~= Seq::empty());
    }
    for action in it: actions
        invariant
            all == it.seq(),
            doings(list@) == coalesced(doings(all.take(it.index()))),
    {
        proof {
            let i = it.index();
            assert(doings(all.take(i + 1)).drop_last() =~= doings(all.take(i)));
            assert(doings(all.take(i + 1)).last() == action@);
        }
        action.append_to(&mut list);
    }
    assert(all.take(all.len() as int) =~= all);
    list
}

/// The smallest part of what a terminal is told: one character, or something else.
pub enum Atom<A> {
    Char(char),
    Other(A),
}

/// Text in its smallest parts.
pub open spec fn chars<A>(text: Seq<char>) -> Seq<Atom<A>>
    decreases text.len(),
{
    if text.len() == 0 {
        Seq::empty()
    } else {
        chars(text.drop_last()).push(Atom::Char(text.last()))
    }
}

/// One action in its smallest parts.
pub open spec fn atoms_of<A>(action: Doing<A>) -> Seq<Atom<A>> {
    match action {
        Doing::Print(c) => seq![Atom::Char(c)],
        Doing::PrintString(text) => chars(text),
        Doing::Other(other) => seq![Atom::Other(other)],
    }
}

/// A list of actions in its smallest parts.
pub open spec fn atoms<A>(actions: Seq<Doing<A>>) -> Seq<Atom<A>>
    decreases actions.len(),
{
    if actions.len() == 0 {
        Seq::empty()
    } else {
        atoms(actions.drop_last()) + atoms_of(actions.last())
    }
}

proof fn lemma_appended<A>(list: Seq<Doing<A>>, action: Doing<A>)
    ensures
        atoms(appended(list, action)) == atoms(list) + atoms_of(action),
        appended(list, action).len() > 0,
{
    let after = appended(list, action);
    if after.len() > list.len() {
        assert(after.drop_last() =~= list);
    } else {
        assert(after.drop_last() =~= list.drop_last());
        match (list.last(), action) {
            (Doing::Print(b), Doing::Print(c)) => {
                lemma_text_grows::<A>(seq![b], c);
                assert(seq![b].push(c) =~= seq![b, c]);
                reveal_with_fuel(chars, 2);
                assert(seq![b].drop_last() =~= Seq::<char>::empty());
                assert(chars::<A>(seq![b]) =~= seq![Atom::Char(b)]);
            },
            (Doing::PrintString(text), Doing::Print(c)) => {
                lemma_text_grows::<A>(text, c);
            },
            _ => {},
        }
        assert(atoms_of(after.last()) == atoms_of(list.last()) + atoms_of(action));
        assert(atoms(after) =~= atoms(list) + atoms_of(action));
    }
}

proof fn lemma_text_grows<A>(text: Seq<char>, c: char)
    ensures
        atoms_of(Doing::<A>::PrintString(text.push(c))) == atoms_of(
            Doing::<A>::PrintString(text),
        ) + atoms_of(Doing::<A>::Print(c)),
{
    assert(text.push(c).drop_last() =~= text);
    assert(chars::<A>(text).push(Atom::Char(c)) =~= chars::<A>(text) + seq![Atom::Char(c)]);
}

/// Putting text together loses nothing and changes no order: character by character
/// the terminal is told the same. It leaves no list empty that was not so before.
pub proof fn law_joined_text_is_the_same<A>(actions: Seq<Doing<A>>)
    ensures
        atoms(coalesced(actions)) == atoms(actions),
        (coalesced(actions).len() == 0) == (actions.len() == 0),
    decreases actions.len(),
{
    if actions.len() > 0 {
        law_joined_text_is_the_same(actions.drop_last());
        lemma_appended(coalesced(actions.drop_last()), actions.last());
    }
}

proof fn lemma_atoms_add<A>(a: Seq<Doing<A>>, b: Seq<Doing<A>>)
    ensures
        atoms(a + b) == atoms(a) + atoms(b),
    decreases b.len(),
{
    if b.len() == 0 {
        assert(a + b =~= a);
        assert(atoms(a) + atoms(b) =~= atoms(a));
    } else {
        assert((a + b).drop_last() =~= a + b.drop_last());
        lemma_atoms_add(a, b.drop_last());
        assert(atoms(a + b) =~= atoms(a) + atoms(b));
    }
}

/// The batches as they go to the terminal, with the text in each put together.
pub open spec fn all_coalesced<A>(batches: Seq<Seq<Doing<A>>>) -> Seq<Seq<Doing<A>>> {
    batches.map_values(|b: Seq<Doing<A>>| coalesced(b))
}

/// Over several batches too the terminal is told the same, character by character,
/// as if no text had been put together.
pub proof fn law_batches_tell_the_same<A>(batches: Seq<Seq<Doing<A>>>)
    ensures
        atoms(joined(all_coalesced(batches))) == atoms(joined(batches)),
    decreases batches.len(),
{
    if batches.len() > 0 {
        let rest = batches.drop_last();
        law_batches_tell_the_same(rest);
        law_joined_text_is_the_same(batches.last());
        assert(all_coalesced(batches).drop_last() =~= all_coalesced(rest));
        lemma_atoms_add(joined(all_coalesced(rest)), coalesced(batches.last()));
        lemma_atoms_add(joined(rest), batches.last());
    } else {
        assert(all_coalesced(batches) =~= batches);
    }
}

} // verus!
