//! Those who want to hear what happens in the multiplexer.
use crate::client::opt_text;
use crate::notification::{Effect, MuxNotification};
use crate::pruning::lemma_wf_kept;
use crate::removal::lemma_same_tables;
use crate::state::{kept, MuxState};
use crate::store::Mux;
use crate::window::copy_ids;
use vstd::prelude::*;

verus! {

/// Something that happens to the subscribers.
pub enum SubscriberStep {
    /// One more subscribes.
    Subscribe,
    /// All of them are told something, and each says whether it wants to hear more.
    Told { verdicts: Seq<bool> },
}

impl MuxState {
    /// Whether the step can be taken: numbers are left, and there is one verdict for
    /// each subscriber.
    pub open spec fn can_take(self, step: SubscriberStep) -> bool {
        match step {
            SubscriberStep::Subscribe => self.next_subscriber < usize::MAX,
            SubscriberStep::Told { verdicts } => verdicts.len() == self.subscribers.len(),
        }
    }

    pub open spec fn after_step(self, step: SubscriberStep) -> MuxState {
        match step {
            SubscriberStep::Subscribe => self.subscribed(),
            SubscriberStep::Told { verdicts } => self.subscribers_kept(verdicts),
        }
    }

    pub open spec fn after_steps(self, steps: Seq<SubscriberStep>) -> MuxState
        decreases steps.len(),
    {
        if steps.len() == 0 {
            self
        } else {
            self.after_steps(steps.drop_last()).after_step(steps.last())
        }
    }

    pub open spec fn can_take_all(self, steps: Seq<SubscriberStep>) -> bool
        decreases steps.len(),
    {
        steps.len() > 0 ==> self.can_take_all(steps.drop_last()) && self.after_steps(
            steps.drop_last(),
        ).can_take(steps.last())
    }

    /// Those who are told something in step `i` of a run.
    pub open spec fn told_in(self, steps: Seq<SubscriberStep>, i: int) -> Seq<usize> {
        self.after_steps(steps.take(i)).subscribers
    }
}

/// Of a list without repetitions exactly those stay whose verdict is favourable.
proof fn lemma_kept(list: Seq<usize>, verdicts: Seq<bool>)
    requires
        list.no_duplicates(),
        verdicts.len() >= list.len(),
    ensures
        kept(list, verdicts).no_duplicates(),
        forall|x: usize| #[trigger] kept(list, verdicts).contains(x) ==> list.contains(x),
        forall|k: int|
            0 <= k < list.len() ==> kept(list, verdicts).contains(#[trigger] list[k])
                == verdicts[k],
    decreases list.len(),
{
    if list.len() > 0 {
        let rest = list.drop_last();
        let n = list.len() - 1;
        lemma_kept(rest, verdicts);
        let then = kept(rest, verdicts);
        let now = kept(list, verdicts);
        assert(!rest.contains(list[n])) by {
            if rest.contains(list[n]) {
                let i = rest.index_of(list[n]);
                assert(list[i] == list[n]);
            }
        }
        assert(!then.contains(list[n]));
        if verdicts[n] {
            assert(now[now.len() - 1] == list[n]);
            assert forall|x: usize| #[trigger] now.contains(x) <==> then.contains(x) || x == list[n] by {
                if then.contains(x) {
                    let i = then.index_of(x);
                    assert(now[i] == x);
                }
                if now.contains(x) {
                    let i = now.index_of(x);
                    if i < then.len() {
                        assert(then[i] == x);
                    }
                }
            }
            assert forall|i: int, j: int| 0 <= i < now.len() && 0 <= j < now.len() && i != j implies
                now[i] != now[j] by {
                if i < then.len() {
                    assert(then.contains(then[i]));
                }
                if j < then.len() {
                    assert(then.contains(then[j]));
                }
            }
        }
        assert forall|x: usize| #[trigger] now.contains(x) implies list.contains(x) by {
            if then.contains(x) {
                let i = rest.index_of(x);
                assert(list[i] == x);
            } else {
                assert(list[n] == x);
            }
        }
        assert forall|k: int| 0 <= k < list.len() implies now.contains(#[trigger] list[k])
            == verdicts[k] by {
            if k < n {
                assert(rest[k] == list[k]);
            }
        }
    }
}

/// Every step keeps the numbers of the subscribers distinct and below the next one.
pub proof fn lemma_step_keeps_sound(s: MuxState, step: SubscriberStep)
    requires
        s.subscribers_sound(),
        s.can_take(step),
    ensures
        s.after_step(step).subscribers_sound(),
{
    let after = s.after_step(step);
    match step {
        SubscriberStep::Subscribe => {
            let now = after.subscribers;
            assert forall|i: int, j: int| 0 <= i < now.len() && 0 <= j < now.len() && i != j implies
                now[i] != now[j] by {
                if i < s.subscribers.len() {
                    assert(s.subscribers[i] < s.next_subscriber);
                }
                if j < s.subscribers.len() {
                    assert(s.subscribers[j] < s.next_subscriber);
                }
            }
            assert forall|i: int| 0 <= i < now.len() implies #[trigger] now[i]
                < after.next_subscriber by {
                if i < s.subscribers.len() {
                    assert(s.subscribers[i] < s.next_subscriber);
                }
            }
        },
        SubscriberStep::Told { verdicts } => {
            lemma_kept(s.subscribers, verdicts);
            let now = after.subscribers;
            assert forall|i: int| 0 <= i < now.len() implies #[trigger] now[i]
                < after.next_subscriber by {
                assert(now.contains(now[i]));
                let k = s.subscribers.index_of(now[i]);
                assert(s.subscribers[k] == now[i]);
            }
        },
    }
}

proof fn lemma_run_keeps_sound(s: MuxState, steps: Seq<SubscriberStep>)
    requires
        s.subscribers_sound(),
        s.can_take_all(steps),
    ensures
        s.after_steps(steps).subscribers_sound(),
    decreases steps.len(),
{
    if steps.len() > 0 {
        lemma_run_keeps_sound(s, steps.drop_last());
        lemma_step_keeps_sound(s.after_steps(steps.drop_last()), steps.last());
    }
}

proof fn lemma_front_of_run(s: MuxState, steps: Seq<SubscriberStep>, i: int)
    requires
        s.can_take_all(steps),
        0 <= i <= steps.len(),
    ensures
        s.can_take_all(steps.take(i)),
        i < steps.len() ==> s.after_steps(steps.take(i)).can_take(steps[i]),
        i < steps.len() ==> s.after_steps(steps.take(i + 1)) == s.after_steps(
            steps.take(i),
        ).after_step(steps[i]),
    decreases steps.len() - i,
{
    if i == steps.len() {
        assert(steps.take(i) =~= steps);
    } else {
        lemma_front_of_run(s, steps, i + 1);
        assert(steps.take(i + 1).drop_last() =~= steps.take(i));
        assert(steps.take(i + 1).last() == steps[i]);
    }
}

/// Whoever has left stays away.
proof fn lemma_gone_for_good(s: MuxState, steps: Seq<SubscriberStep>, i: int, j: int, id: usize)
    requires
        s.subscribers_sound(),
        s.can_take_all(steps),
        0 <= i <= j <= steps.len(),
        !s.told_in(steps, i).contains(id),
        id < s.after_steps(steps.take(i)).next_subscriber,
    ensures
        !s.told_in(steps, j).contains(id),
        id < s.after_steps(steps.take(j)).next_subscriber,
    decreases j - i,
{
    if i < j {
        lemma_gone_for_good(s, steps, i, j - 1, id);
        lemma_front_of_run(s, steps, j - 1);
        lemma_run_keeps_sound(s, steps.take(j - 1));
        let before = s.after_steps(steps.take(j - 1));
        let after = s.after_steps(steps.take(j));
        match steps[j - 1] {
            SubscriberStep::Subscribe => {
                if after.subscribers.contains(id) {
                    let k = after.subscribers.index_of(id);
                    if k < before.subscribers.len() {
                        assert(before.subscribers[k] == id);
                    }
                }
            },
            SubscriberStep::Told { verdicts } => {
                lemma_kept(before.subscribers, verdicts);
            },
        }
    }
}

/// In any run of subscriptions and notices, everybody who is told something is told
/// it once, and a subscriber that declined to hear more is never told anything again.
pub proof fn law_who_declines_is_not_told_again(
    s: MuxState,
    steps: Seq<SubscriberStep>,
    i: int,
    k: int,
    j: int,
)
    requires
        s.subscribers_sound(),
        s.can_take_all(steps),
        0 <= i < j < steps.len(),
        steps[i] matches SubscriberStep::Told { verdicts } && 0 <= k < verdicts.len()
            && !verdicts[k],
    ensures
        s.told_in(steps, i).no_duplicates(),
        !s.told_in(steps, j).contains(s.told_in(steps, i)[k]),
{
    lemma_front_of_run(s, steps, i);
    lemma_run_keeps_sound(s, steps.take(i));
    let before = s.after_steps(steps.take(i));
    lemma_kept(before.subscribers, steps[i]->verdicts);
    let id = before.subscribers[k];
    assert(id < before.next_subscriber);
    lemma_gone_for_good(s, steps, i + 1, j, id);
}

/// Whether a subscriber that is told something in step `n` says that it wants to
/// hear more.
pub open spec fn goes_on(s: MuxState, steps: Seq<SubscriberStep>, n: int, id: usize) -> bool {
    match steps[n] {
        SubscriberStep::Subscribe => true,
        SubscriberStep::Told { verdicts } => forall|k: int|
            0 <= k < s.told_in(steps, n).len() && #[trigger] s.told_in(steps, n)[k] == id
                ==> verdicts[k],
    }
}

/// In any run of subscriptions and notices, a subscriber is told everything for as
/// long as it wants to hear more, whatever the others say.
pub proof fn law_who_wants_more_is_told_on(
    s: MuxState,
    steps: Seq<SubscriberStep>,
    i: int,
    j: int,
    id: usize,
)
    requires
        s.subscribers_sound(),
        s.can_take_all(steps),
        0 <= i <= j <= steps.len(),
        s.told_in(steps, i).contains(id),
        forall|n: int| i <= n < j ==> #[trigger] goes_on(s, steps, n, id),
    ensures
        s.told_in(steps, j).contains(id),
    decreases j - i,
{
    if i < j {
        law_who_wants_more_is_told_on(s, steps, i, j - 1, id);
        lemma_front_of_run(s, steps, j - 1);
        lemma_run_keeps_sound(s, steps.take(j - 1));
        let before = s.after_steps(steps.take(j - 1));
        let after = s.after_steps(steps.take(j));
        let k = before.subscribers.index_of(id);
        assert(before.subscribers[k] == id);
        assert(goes_on(s, steps, j - 1, id));
        match steps[j - 1] {
            SubscriberStep::Subscribe => {
                assert(after.subscribers[k] == id);
            },
            SubscriberStep::Told { verdicts } => {
                lemma_kept(before.subscribers, verdicts);
                assert(s.told_in(steps, j - 1)[k] == id);
            },
        }
    }
}

/// Whoever subscribes is told what comes next, under a number that nobody else has
/// had.
pub proof fn law_who_subscribes_is_told(s: MuxState)
    requires
        s.subscribers_sound(),
        s.can_take(SubscriberStep::Subscribe),
    ensures
        s.subscribed().subscribers.contains(s.next_subscriber),
        !s.subscribers.contains(s.next_subscriber),
        s.subscribed().subscribers.drop_last() == s.subscribers,
{
    assert(s.subscribed().subscribers.last() == s.next_subscriber);
    assert(s.subscribed().subscribers.drop_last() =~= s.subscribers);
    if s.subscribers.contains(s.next_subscriber) {
        let i = s.subscribers.index_of(s.next_subscriber);
        assert(s.subscribers[i] < s.next_subscriber);
    }
}

impl Mux {
    /// Adds a subscriber. Gives back the number under which the host keeps it.
    pub fn subscribe(&mut self) -> (id: usize)
        requires
            old(self)@.next_subscriber < usize::MAX,
        ensures
            id == old(self)@.next_subscriber,
            final(self)@ == old(self)@.subscribed(),
            old(self)@.wf() ==> final(self)@.wf(),
    {
        let ghost s = self@;
        let id = self.get_next_subscriber();
        let mut ids = copy_ids(self.subscriber_ids());
        ids.push(id);
        self.put_subscribers(ids);
        self.put_next_subscriber(id + 1);
        proof {
            if s.subscribers_sound() {
                lemma_step_keeps_sound(s, SubscriberStep::Subscribe);
            }
            lemma_wf_kept(s, self@);
        }
        id
    }

    /// The number that the next subscriber gets.
    pub fn next_subscriber_id(&self) -> (id: usize)
        ensures
            id == self@.next_subscriber,
    {
        self.get_next_subscriber()
    }

    /// The numbers of the subscribers.
    pub fn subscribers(&self) -> (ids: &Vec<usize>)
        ensures
            ids@ == self@.subscribers,
    {
        self.subscriber_ids()
    }

    /// Tells the subscribers something.
    pub fn notify(&mut self, notification: MuxNotification)
        ensures
            final(self)@ == old(self)@.notified(notification@),
            old(self)@.wf() ==> final(self)@.wf(),
    {
        let ghost s = self@;
        self.ask(Effect::Notify(notification));
        proof {
            lemma_same_tables(s, self@);
        }
    }

    /// Once all subscribers have been told, keeps those that said that they want
    /// to hear more. There is one verdict for each.
    pub fn retain_subscribers(&mut self, verdicts: &Vec<bool>)
        requires
            verdicts@.len() == old(self)@.subscribers.len(),
        ensures
            final(self)@ == old(self)@.subscribers_kept(verdicts@),
            old(self)@.wf() ==> final(self)@.wf(),
    {
        let ghost s = self@;
        let mut left: Vec<usize> = Vec::new();
        {
            let ids = self.subscriber_ids();
            let mut i: usize = 0;
            assert(ids@.take(0) =~= Seq::empty());
            while i < ids.len()
                invariant
                    verdicts@.len() == ids@.len(),
                    i <= ids@.len(),
                    left@ == kept(ids@.take(i as int), verdicts@),
                decreases ids@.len() - i,
            {
                assert(ids@.take(i + 1).drop_last() =~= ids@.take(i as int));
                if verdicts[i] {
                    left.push(ids[i]);
                }
                i = i + 1;
            }
            assert(ids@.take(i as int) =~= ids@);
        }
        self.put_subscribers(left);
        proof {
            if s.subscribers_sound() {
                lemma_step_keeps_sound(s, SubscriberStep::Told { verdicts: verdicts@ });
            }
            lemma_wf_kept(s, self@);
        }
    }

    /// What panes show before their output.
    pub fn set_banner(&mut self, banner: Option<String>)
        ensures
            final(self)@ == (MuxState { banner: opt_text(banner), ..old(self)@ }),
            old(self)@.wf() ==> final(self)@.wf(),
    {
        let ghost s = self@;
        self.put_banner(banner);
        proof {
            lemma_wf_kept(s, self@);
        }
    }
}

} // verus!
