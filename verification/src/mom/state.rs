//! The conversation the bot keeps for each Slack channel.

use vstd::prelude::*;
use crate::paths::opt_str_view;

verus! {

broadcast use vstd::string::group_string_axioms;

/// The state of one channel or direct-message conversation: its messages,
/// when it was last active (`T`), and the thread it answers in.
pub struct ChannelState<M, T> {
    pub id: String,
    pub messages: Vec<M>,
    pub last_activity: T,
    pub thread_ts: Option<String>,
}

impl<M, T> ChannelState<M, T> {
    pub open spec fn messages_view(&self) -> Seq<M> {
        self.messages@
    }

    pub open spec fn activity(&self) -> T {
        self.last_activity
    }

    pub open spec fn thread(&self) -> Option<Seq<char>> {
        opt_str_view(self.thread_ts)
    }

    /// A conversation with no messages, active `now`.
    pub fn new_at(id: String, now: T) -> (r: Self)
        ensures
            r.id@ == id@,
            r.messages_view() == Seq::<M>::empty(),
            r.activity() == now,
            r.thread() is None,
    {
        ChannelState { id, messages: Vec::new(), last_activity: now, thread_ts: None }
    }

    /// Adds a message, which makes the conversation active `now`.
    pub fn add_message_at(&mut self, message: M, now: T)
        ensures
            final(self).messages_view() == old(self).messages_view().push(message),
            final(self).activity() == now,
            final(self).thread() == old(self).thread(),
            final(self).id == old(self).id,
    {
        self.messages.push(message);
        self.last_activity = now;
    }

    /// All messages, oldest first.
    pub fn get_messages(&self) -> (r: &[M])
        ensures
            r@ == self.messages_view(),
    {
        self.messages.as_slice()
    }

    /// The last `n` messages (all of them when there are fewer), oldest
    /// first.
    pub fn get_recent(&self, n: usize) -> (r: &[M])
        ensures
            r@ == self.messages_view().skip(if self.messages_view().len() > n {
                self.messages_view().len() - n
            } else {
                0
            }),
    {
        let len = self.messages.len();
        let from = if len > n {
            len - n
        } else {
            0
        };
        let r = vstd::slice::slice_subrange(self.messages.as_slice(), from, len);
        assert(r@ =~= self.messages_view().skip(from as int));
        r
    }

    /// Forgets the messages, which makes the conversation active `now`.
    pub fn clear_at(&mut self, now: T)
        ensures
            final(self).messages_view() == Seq::<M>::empty(),
            final(self).activity() == now,
            final(self).thread() == old(self).thread(),
            final(self).id == old(self).id,
    {
        self.messages.clear();
        self.last_activity = now;
    }

    /// Answers in the thread `ts` from now on.
    pub fn set_thread_ts(&mut self, ts: String)
        ensures
            final(self).thread() == Some(ts@),
            final(self).messages_view() == old(self).messages_view(),
            final(self).activity() == old(self).activity(),
            final(self).id == old(self).id,
    {
        self.thread_ts = Some(ts);
    }

    /// The thread answers go to.
    pub fn get_thread_ts(&self) -> (r: Option<String>)
        ensures
            opt_str_view(r) == self.thread(),
    {
        match &self.thread_ts {
            Some(t) => Some(t.as_str().to_string()),
            None => None,
        }
    }

    /// The number of messages.
    pub fn message_count(&self) -> (r: usize)
        ensures
            r == self.messages_view().len(),
    {
        self.messages.len()
    }

    /// When the conversation was last active.
    pub fn last_activity(&self) -> (r: &T)
        ensures
            *r == self.activity(),
    {
        &self.last_activity
    }
}

/// `chrono::Utc::now` as milliseconds since the Unix epoch
/// (`DateTime::timestamp_millis`). Nothing is claimed of it: it is
/// whatever the clock reads.
#[verifier::external_body]
fn now_millis() -> (r: i64) {
    chrono::Utc::now().timestamp_millis()
}

/// Conversations stamped with the clock, in milliseconds since the Unix
/// epoch.
impl<M> ChannelState<M, i64> {
    /// A conversation with no messages, active from now.
    pub fn new(id: String) -> (r: Self)
        ensures
            r.id@ == id@,
            r.messages_view() == Seq::<M>::empty(),
            r.thread() is None,
    {
        Self::new_at(id, now_millis())
    }

    /// Adds a message, which makes the conversation active now.
    pub fn add_message(&mut self, message: M)
        ensures
            final(self).messages_view() == old(self).messages_view().push(message),
            final(self).thread() == old(self).thread(),
            final(self).id == old(self).id,
    {
        self.add_message_at(message, now_millis())
    }

    /// Forgets the messages, which makes the conversation active now.
    pub fn clear(&mut self)
        ensures
            final(self).messages_view() == Seq::<M>::empty(),
            final(self).thread() == old(self).thread(),
            final(self).id == old(self).id,
    {
        self.clear_at(now_millis())
    }
}

/// The conversations of all channels, in the order they were first used.
pub struct StateManager<M, T> {
    channels: Vec<ChannelState<M, T>>,
}

/// The index of the first of `ids` equal to `id`.
pub open spec fn first_index(ids: Seq<Seq<char>>, id: Seq<char>) -> Option<int>
    decreases ids.len(),
{
    if ids.len() == 0 {
        None
    } else {
        match first_index(ids.drop_last(), id) {
            Some(i) => Some(i),
            None => if ids.last() == id {
                Some(ids.len() - 1)
            } else {
                None
            },
        }
    }
}

proof fn lemma_first_index<T>(ids: Seq<Seq<char>>, id: Seq<char>, i: int)
    requires
        0 <= i <= ids.len(),
        forall|k: int| 0 <= k < i ==> ids[k] != id,
        i == ids.len() || ids[i] == id,
    ensures
        first_index(ids, id) == if i == ids.len() {
            None::<int>
        } else {
            Some(i)
        },
    decreases ids.len(),
{
    if ids.len() > 0 {
        if i == ids.len() {
            lemma_first_index::<T>(ids.drop_last(), id, i - 1);
        } else if i == ids.len() - 1 {
            lemma_first_index::<T>(ids.drop_last(), id, i);
        } else {
            lemma_first_index::<T>(ids.drop_last(), id, i);
        }
    }
}

proof fn lemma_first_index_found(ids: Seq<Seq<char>>, id: Seq<char>)
    ensures
        first_index(ids, id) matches Some(i) ==> 0 <= i < ids.len() && ids[i] == id,
    decreases ids.len(),
{
    if ids.len() > 0 {
        lemma_first_index_found(ids.drop_last(), id);
    }
}

impl<M, T> StateManager<M, T> {
    /// The conversations, in the order their channels were first used.
    pub closed spec fn entries(&self) -> Seq<ChannelState<M, T>> {
        self.channels@
    }

    /// The channel ids, in order.
    pub open spec fn ids(&self) -> Seq<Seq<char>> {
        self.entries().map_values(|c: ChannelState<M, T>| c.id@)
    }

    /// The conversation kept under an id: the first with it.
    pub open spec fn channel(&self, id: Seq<char>) -> Option<ChannelState<M, T>> {
        match first_index(self.ids(), id) {
            Some(i) => Some(self.entries()[i]),
            None => None,
        }
    }

    /// No conversations.
    pub fn new() -> (r: Self)
        ensures
            r.ids() == Seq::<Seq<char>>::empty(),
    {
        let r = StateManager { channels: Vec::new() };
        assert(r.ids() =~= Seq::<Seq<char>>::empty());
        r
    }

    fn position(&self, channel_id: &str) -> (r: Option<usize>)
        ensures
            match r {
                Some(i) => first_index(self.ids(), channel_id@) == Some(i as int) && i < self.channels@.len(),
                None => first_index(self.ids(), channel_id@) is None,
            },
    {
        let mut i: usize = 0;
        while i < self.channels.len()
            invariant
                i <= self.channels@.len(),
                forall|k: int| 0 <= k < i ==> self.ids()[k] != channel_id@,
            decreases self.channels.len() - i,
        {
            if crate::text::str_eq(self.channels[i].id.as_str(), channel_id) {
                proof {
                    lemma_first_index::<T>(self.ids(), channel_id@, i as int);
                }
                return Some(i);
            }
            i += 1;
        }
        proof {
            lemma_first_index::<T>(self.ids(), channel_id@, i as int);
        }
        None
    }

    /// The conversation of a channel, started (active `now`) when the
    /// channel has none yet.
    pub fn get_channel_at(&mut self, channel_id: &str, now: T) -> (r: &mut ChannelState<M, T>)
        ensures
            r.id@ == channel_id@,
            old(self).channel(channel_id@) is None ==> r.messages_view() == Seq::<M>::empty() && r.activity()
                == now && r.thread() is None,
            old(self).channel(channel_id@) matches Some(c) ==> r.messages_view() == c.messages_view()
                && r.activity() == c.activity() && r.thread() == c.thread(),
            final(self).entries() == match first_index(old(self).ids(), channel_id@) {
                Some(i) => old(self).entries().update(i, *final(r)),
                None => old(self).entries().push(*final(r)),
            },
    {
        let i = match self.position(channel_id) {
            Some(i) => {
                proof {
                    lemma_first_index_found(self.ids(), channel_id@);
                    assert(self.ids()[i as int] == self.channels@[i as int].id@);
                }
                i
            },
            None => {
                let c = ChannelState::new_at(channel_id.to_string(), now);
                self.channels.push(c);
                self.channels.len() - 1
            },
        };
        &mut self.channels[i]
    }

    /// Forgets a channel's conversation.
    pub fn remove_channel(&mut self, channel_id: &str)
        ensures
            match first_index(old(self).ids(), channel_id@) {
                Some(i) => final(self).ids() == old(self).ids().remove(i),
                None => final(self).ids() == old(self).ids(),
            },
    {
        if let Some(i) = self.position(channel_id) {
            self.channels.remove(i);
            assert(self.ids() =~= old(self).ids().remove(i as int));
        }
    }

    /// The channels with a conversation.
    pub fn list_channels(&self) -> (r: Vec<String>)
        ensures
            crate::order::views_of(r@) == self.ids(),
    {
        let mut r: Vec<String> = Vec::new();
        let mut i: usize = 0;
        while i < self.channels.len()
            invariant
                i <= self.channels@.len(),
                crate::order::views_of(r@) == self.ids().take(i as int),
            decreases self.channels.len() - i,
        {
            let ghost before = crate::order::views_of(r@);
            r.push(self.channels[i].id.as_str().to_string());
            assert(crate::order::views_of(r@) =~= before.push(self.ids()[i as int]));
            assert(crate::order::views_of(r@) =~= self.ids().take(i + 1));
            i += 1;
        }
        assert(self.ids().take(self.channels@.len() as int) =~= self.ids());
        r
    }

    /// Forgets every conversation.
    pub fn clear(&mut self)
        ensures
            final(self).ids() == Seq::<Seq<char>>::empty(),
    {
        self.channels.clear();
        assert(self.ids() =~= Seq::<Seq<char>>::empty());
    }
}

/// Conversations stamped with the clock, in milliseconds since the Unix
/// epoch.
impl<M> StateManager<M, i64> {
    /// The conversation of a channel, started now when the channel has
    /// none yet.
    pub fn get_channel(&mut self, channel_id: &str) -> (r: &mut ChannelState<M, i64>)
        ensures
            r.id@ == channel_id@,
            old(self).channel(channel_id@) is None ==> r.messages_view() == Seq::<M>::empty() && r.thread() is None,
            old(self).channel(channel_id@) matches Some(c) ==> r.messages_view() == c.messages_view()
                && r.activity() == c.activity() && r.thread() == c.thread(),
            final(self).entries() == match first_index(old(self).ids(), channel_id@) {
                Some(i) => old(self).entries().update(i, *final(r)),
                None => old(self).entries().push(*final(r)),
            },
    {
        self.get_channel_at(channel_id, now_millis())
    }
}

} // verus!
