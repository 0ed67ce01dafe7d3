//! What the server keeps about one connected client.

use std::collections::HashMap;

use vstd::prelude::*;

use crate::messages::Channel;
use crate::{ChannelId, ClientChannelId, SubscriptionId};

verus! {

broadcast use vstd::std_specs::hash::group_hash_axioms;

/// The state of one client, as mathematical values.
#[verifier::ext_equal]
pub struct ClientView {
    pub remote: Seq<char>,
    /// Subscription id to channel id.
    pub subscriptions: Map<u32, u32>,
    /// Channel id to subscription id.
    pub by_channel: Map<u32, u32>,
    /// Channels the client advertised, by their ids.
    pub advertisements: Map<u32, Channel>,
    /// Names of the parameters the client wants updates of, oldest first.
    pub params: Seq<Seq<char>>,
}

/// A client that just connected from `remote`: no subscriptions, no
/// advertisements, no parameters followed.
pub open spec fn fresh_client(remote: Seq<char>) -> ClientView {
    ClientView {
        remote,
        subscriptions: Map::empty(),
        by_channel: Map::empty(),
        advertisements: Map::empty(),
        params: Seq::empty(),
    }
}

/// Whether `params` holds `name`.
pub open spec fn has_param(params: Seq<Seq<char>>, name: Seq<char>) -> bool {
    exists|i: int| 0 <= i < params.len() && params[i] == name
}

/// The views of a sequence of strings.
pub open spec fn string_views(v: Seq<String>) -> Seq<Seq<char>> {
    v.map_values(|s: String| s@)
}

impl ClientView {
    /// The two subscription maps are inverse to each other, every advertised
    /// channel is stored under its own id, and no parameter name occurs twice.
    pub open spec fn wf(self) -> bool {
        &&& self.subscriptions.dom().finite()
        &&& self.by_channel.dom().finite()
        &&& forall|s: u32| #[trigger]
            self.subscriptions.contains_key(s) ==> self.by_channel.contains_key(
                self.subscriptions[s],
            ) && self.by_channel[self.subscriptions[s]] == s
        &&& forall|c: u32| #[trigger]
            self.by_channel.contains_key(c) ==> self.subscriptions.contains_key(self.by_channel[c])
                && self.subscriptions[self.by_channel[c]] == c
        &&& forall|k: u32| #[trigger] self.advertisements.contains_key(k) ==> self.advertisements[k].id == k
        &&& self.params.no_duplicates()
    }

    /// The client after it subscribed to `chan` under the id `sub`.
    pub open spec fn with_subscription(self, sub: u32, chan: u32) -> ClientView {
        ClientView {
            subscriptions: self.subscriptions.insert(sub, chan),
            by_channel: self.by_channel.insert(chan, sub),
            ..self
        }
    }

    /// The client with the parameter names `params`.
    pub open spec fn with_params(self, params: Seq<Seq<char>>) -> ClientView {
        ClientView { params, ..self }
    }

    /// The client after it advertised `ch`.
    pub open spec fn with_advertisement(self, ch: Channel) -> ClientView {
        ClientView { advertisements: self.advertisements.insert(ch.id, ch), ..self }
    }

    /// The client after it withdrew its channel `id`.
    pub open spec fn without_advertisement(self, id: u32) -> ClientView {
        ClientView { advertisements: self.advertisements.remove(id), ..self }
    }

    /// The client with the advertisements `advertisements`.
    pub open spec fn with_advertisements(self, advertisements: Map<u32, Channel>) -> ClientView {
        ClientView { advertisements, ..self }
    }

    /// The client after its subscription `sub` ended.
    pub open spec fn without_subscription(self, sub: u32) -> ClientView {
        ClientView {
            subscriptions: self.subscriptions.remove(sub),
            by_channel: self.by_channel.remove(self.subscriptions[sub]),
            ..self
        }
    }
}

/// What the server keeps about one connected client.
pub struct ClientState {
    pub remote: String,
    /// Maps subscription IDs to channel IDs to keep track of what the client is subscribed to.
    pub subscriptions: HashMap<SubscriptionId, ChannelId>,
    /// Reverse mapping of `subscriptions` to quickly look up subscription IDs by channel IDs.
    pub subscriptions_by_channel: HashMap<ChannelId, SubscriptionId>,
    /// Maps advertised client channel IDs to client channels.
    pub advertisements_by_channel: HashMap<ClientChannelId, Channel>,
    /// The parameter names that the client has subscribed to, oldest first.
    pub subscribed_params: Vec<String>,
}

impl View for ClientState {
    type V = ClientView;

    open spec fn view(&self) -> ClientView {
        ClientView {
            remote: self.remote@,
            subscriptions: self.subscriptions@,
            by_channel: self.subscriptions_by_channel@,
            advertisements: self.advertisements_by_channel@,
            params: string_views(self.subscribed_params@),
        }
    }
}

impl ClientState {
    /// A client with the given remote address, with no subscriptions,
    /// advertisements or parameter subscriptions.
    pub fn new(remote: String) -> (c: ClientState)
        ensures
            c@ == fresh_client(remote@),
            c@.wf(),
    {
        let c = ClientState {
            remote,
            subscriptions: HashMap::new(),
            subscriptions_by_channel: HashMap::new(),
            advertisements_by_channel: HashMap::new(),
            subscribed_params: Vec::new(),
        };
        assert(c@.params =~= Seq::<Seq<char>>::empty());
        assert(c@ =~= fresh_client(remote@));
        c
    }

    /// Records the subscription `sub` to the channel `chan`.
    pub fn add_subscription(&mut self, sub: SubscriptionId, chan: ChannelId)
        requires
            old(self)@.wf(),
            !old(self)@.subscriptions.contains_key(sub),
            !old(self)@.by_channel.contains_key(chan),
        ensures
            final(self)@ == old(self)@.with_subscription(sub, chan),
            final(self)@.wf(),
    {
        self.subscriptions.insert(sub, chan);
        self.subscriptions_by_channel.insert(chan, sub);
        assert(self@ =~= old(self)@.with_subscription(sub, chan));
    }

    /// Ends the subscription `sub` and gives its channel, or gives `None`
    /// and changes nothing where there is no such subscription.
    pub fn remove_subscription(&mut self, sub: SubscriptionId) -> (r: Option<ChannelId>)
        requires
            old(self)@.wf(),
        ensures
            final(self)@.wf(),
            match r {
                Some(chan) => old(self)@.subscriptions.contains_key(sub)
                    && chan == old(self)@.subscriptions[sub]
                    && final(self)@ == old(self)@.without_subscription(sub),
                None => !old(self)@.subscriptions.contains_key(sub) && final(self)@ == old(self)@,
            },
    {
        match self.subscriptions.remove(&sub) {
            Some(chan) => {
                assert(old(self)@.subscriptions.contains_key(sub));
                assert(chan == old(self)@.subscriptions[sub]);
                self.subscriptions_by_channel.remove(&chan);
                assert(self@.subscriptions =~= old(self)@.without_subscription(sub).subscriptions);
                assert(self@.by_channel =~= old(self)@.without_subscription(sub).by_channel);
                assert(self@ =~= old(self)@.without_subscription(sub));
                Some(chan)
            },
            None => None,
        }
    }

    /// Whether the client follows the parameter `name`.
    pub fn follows_param(&self, name: &String) -> (r: bool)
        ensures
            r == has_param(self@.params, name@),
    {
        let n = self.subscribed_params.len();
        let mut i: usize = 0;
        while i < n
            invariant
                n == self.subscribed_params@.len(),
                0 <= i <= n,
                forall|j: int| 0 <= j < i ==> self@.params[j] != name@,
            decreases n - i,
        {
            if self.subscribed_params[i] == *name {
                assert(self@.params[i as int] == name@);
                return true;
            }
            i = i + 1;
        }
        false
    }

    /// Follows each of `names` in turn; gives the names that were new.
    pub fn subscribe_params(&mut self, names: &Vec<String>) -> (added: Vec<String>)
        requires
            old(self)@.wf(),
        ensures
            final(self)@.wf(),
            final(self)@ == param_subscribe_spec(old(self)@, string_views(names@)).0,
            string_views(added@) == param_subscribe_spec(old(self)@, string_views(names@)).1,
    {
        let mut added: Vec<String> = Vec::new();
        let n = names.len();
        for i in 0..n
            invariant
                n == names@.len(),
                self@.wf(),
                self@ == param_subscribe_spec(old(self)@, string_views(names@).take(i as int)).0,
                string_views(added@) == param_subscribe_spec(old(self)@, string_views(names@).take(i as int)).1,
        {
            assert(string_views(names@).take(i + 1).drop_last() =~= string_views(names@).take(i as int));
            assert(string_views(names@).take(i + 1).last() == names@[i as int]@);
            if self.subscribe_param(&names[i]) {
                let ghost before = string_views(added@);
                added.push(names[i].clone());
                assert(string_views(added@) =~= before.push(names@[i as int]@));
            }
        }
        assert(string_views(names@).take(n as int) =~= string_views(names@));
        added
    }

    /// Stops following each of `names` in turn; gives the names that were followed.
    pub fn unsubscribe_params(&mut self, names: &Vec<String>) -> (removed: Vec<String>)
        requires
            old(self)@.wf(),
        ensures
            final(self)@.wf(),
            final(self)@ == param_unsubscribe_spec(old(self)@, string_views(names@)).0,
            string_views(removed@) == param_unsubscribe_spec(old(self)@, string_views(names@)).1,
    {
        let mut removed: Vec<String> = Vec::new();
        let n = names.len();
        for i in 0..n
            invariant
                n == names@.len(),
                self@.wf(),
                self@ == param_unsubscribe_spec(old(self)@, string_views(names@).take(i as int)).0,
                string_views(removed@) == param_unsubscribe_spec(old(self)@, string_views(names@).take(i as int)).1,
        {
            assert(string_views(names@).take(i + 1).drop_last() =~= string_views(names@).take(i as int));
            assert(string_views(names@).take(i + 1).last() == names@[i as int]@);
            if self.unsubscribe_param(&names[i]) {
                let ghost before = string_views(removed@);
                removed.push(names[i].clone());
                assert(string_views(removed@) =~= before.push(names@[i as int]@));
            }
        }
        assert(string_views(names@).take(n as int) =~= string_views(names@));
        removed
    }

    /// Adds `name` to the parameters the client wants updates of; gives
    /// whether it was new (an old name changes nothing).
    pub fn subscribe_param(&mut self, name: &String) -> (added: bool)
        requires
            old(self)@.wf(),
        ensures
            final(self)@.wf(),
            added == !has_param(old(self)@.params, name@),
            final(self)@ == (if added { old(self)@.with_params(old(self)@.params.push(name@)) } else { old(self)@ }),
    {
        let n = self.subscribed_params.len();
        let mut i: usize = 0;
        while i < n
            invariant
                n == self.subscribed_params@.len(),
                self@ == old(self)@,
                old(self)@.wf(),
                0 <= i <= n,
                forall|j: int| 0 <= j < i ==> self@.params[j] != name@,
            decreases n - i,
        {
            if self.subscribed_params[i] == *name {
                assert(self@.params[i as int] == name@);
                return false;
            }
            i = i + 1;
        }
        let ghost before = self@;
        self.subscribed_params.push(name.clone());
        assert(self@.params =~= before.params.push(name@));
        assert(self@ =~= ClientView { params: before.params.push(name@), ..before });
        true
    }

    /// Removes `name` from the parameters the client wants updates of; gives
    /// whether it was there (a missing name changes nothing).
    pub fn unsubscribe_param(&mut self, name: &String) -> (removed: bool)
        requires
            old(self)@.wf(),
        ensures
            final(self)@.wf(),
            removed == has_param(old(self)@.params, name@),
            final(self)@ == old(self)@.with_params(without_param(old(self)@.params, name@)),
    {
        let n = self.subscribed_params.len();
        let mut i: usize = 0;
        while i < n
            invariant
                n == self.subscribed_params@.len(),
                self@ == old(self)@,
                old(self)@.wf(),
                0 <= i <= n,
                forall|j: int| 0 <= j < i ==> self@.params[j] != name@,
            decreases n - i,
        {
            if self.subscribed_params[i] == *name {
                let ghost before = self@;
                proof { lemma_param_index(before.params, name@, i as int); }
                self.subscribed_params.remove(i);
                assert(self@.params =~= before.params.remove(i as int));
                assert(self@ =~= ClientView { params: without_param(before.params, name@), ..before });
                return true;
            }
            i = i + 1;
        }
        assert(!has_param(self@.params, name@));
        assert(self@ =~= ClientView { params: without_param(old(self)@.params, name@), ..old(self)@ });
        false
    }
}

/// What a request to follow the parameters `names` does to a client, name
/// after name: the new client, and the names that were new to it.
pub open spec fn param_subscribe_spec(c: ClientView, names: Seq<Seq<char>>) -> (ClientView, Seq<Seq<char>>)
    decreases names.len(),
{
    if names.len() == 0 {
        (c, Seq::empty())
    } else {
        let prev = param_subscribe_spec(c, names.drop_last());
        let n = names.last();
        if has_param(prev.0.params, n) {
            prev
        } else {
            (prev.0.with_params(prev.0.params.push(n)), prev.1.push(n))
        }
    }
}

/// What a request to stop following the parameters `names` does to a client,
/// name after name: the new client, and the names it followed until then.
pub open spec fn param_unsubscribe_spec(c: ClientView, names: Seq<Seq<char>>) -> (ClientView, Seq<Seq<char>>)
    decreases names.len(),
{
    if names.len() == 0 {
        (c, Seq::empty())
    } else {
        let prev = param_unsubscribe_spec(c, names.drop_last());
        let n = names.last();
        if has_param(prev.0.params, n) {
            (prev.0.with_params(without_param(prev.0.params, n)), prev.1.push(n))
        } else {
            prev
        }
    }
}

/// `params` without `name` (unchanged where it does not hold `name`).
pub open spec fn without_param(params: Seq<Seq<char>>, name: Seq<char>) -> Seq<Seq<char>> {
    if has_param(params, name) {
        params.remove(choose|i: int| 0 <= i < params.len() && params[i] == name)
    } else {
        params
    }
}

/// In a sequence without duplicates, a name that stands at `i` is the one that `choose` finds.
pub proof fn lemma_param_index(params: Seq<Seq<char>>, name: Seq<char>, i: int)
    requires
        params.no_duplicates(),
        0 <= i < params.len(),
        params[i] == name,
    ensures
        has_param(params, name),
        (choose|j: int| 0 <= j < params.len() && params[j] == name) == i,
{
    let j = choose|j: int| 0 <= j < params.len() && params[j] == name;
    assert(0 <= j < params.len() && params[j] == name);
}

} // verus!
