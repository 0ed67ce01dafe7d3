//! Properties of the protocol that span several requests or several steps.

use vstd::prelude::*;

use crate::client_state::ClientView;
use crate::binary::{
    decode_client_frame, le_bytes, le_value, lemma_le_bytes_of_value, lemma_le_value_bound,
    lemma_le_value_of_bytes, message_data_frame, service_call_response_prefix, byte_base,
};
use crate::client_state::{
    has_param, param_subscribe_spec, param_unsubscribe_spec, without_param, lemma_param_index,
};
use crate::foxglove_state::{
    add_channel_spec, add_service_spec, advertise_spec, binary_input_spec, channel_with_id,
    connect_spec, disconnect_spec, params_for, service_with_id, BinaryOutcome,
    has_subscriber, opt_seq, remove_channel_spec, remove_service_spec, subscribe_spec,
    subscribe_step, unadvertise_spec, unsubscribe_removals, unsubscribe_spec, unsubscribe_step,
    StateView,
};
use crate::messages::{Channel, Parameter, Service, StatusLevel, Subscription};
use crate::text::with_number;
use vstd::utf8::{decode_utf8, encode_utf8, valid_utf8};

verus! {

/// The listener hears of every accepted subscription of a subscribe request,
/// in order: of each channel that the client was not subscribed to before and
/// is after, once; every subscription is either announced or refused with a
/// status.
pub proof fn law_subscribe_announces_accepted(s: StateView, cid: u32, subs: Seq<Subscription>)
    requires
        s.clients.contains_key(cid),
    ensures
        subscribe_spec(s, cid, subs).0.clients.contains_key(cid),
        subscribe_spec(s, cid, subs).1.len() + subscribe_spec(s, cid, subs).2.len() == subs.len(),
        subscribe_spec(s, cid, subs).2.no_duplicates(),
        forall|ch: u32| #[trigger] subscribe_spec(s, cid, subs).2.contains(ch) <==> (
            !s.clients[cid].by_channel.contains_key(ch)
            && subscribe_spec(s, cid, subs).0.clients[cid].by_channel.contains_key(ch)),
        forall|ch: u32| s.clients[cid].by_channel.contains_key(ch) ==> #[trigger] subscribe_spec(s, cid, subs).0.clients[cid].by_channel.contains_key(ch),
    decreases subs.len(),
{
    if subs.len() > 0 {
        let init = subs.drop_last();
        law_subscribe_announces_accepted(s, cid, init);
        let prev = subscribe_spec(s, cid, init);
        let sub = subs.last();
        let step = subscribe_step(prev.0, cid, sub);
        let cur = subscribe_spec(s, cid, subs);
        assert(cur.0 == step.0 && cur.1 == prev.1 + opt_seq(step.1) && cur.2 == prev.2 + opt_seq(step.2));
        let c = prev.0.clients[cid];
        let chan = sub.channel_id;
        if step.2 is Some {
            assert(!c.by_channel.contains_key(chan));
            assert(cur.0.clients[cid].by_channel == c.by_channel.insert(chan, sub.id));
            assert(!prev.2.contains(chan));
            assert(cur.2 == prev.2.push(chan));
            assert(step.1 is None);
            assert forall|x: u32| #[trigger] cur.2.contains(x) <==> (prev.2.contains(x) || x == chan) by {
                if cur.2.contains(x) {
                    let j = choose|j: int| 0 <= j < cur.2.len() && cur.2[j] == x;
                    if j < prev.2.len() {
                        assert(prev.2[j] == x);
                    }
                }
                if prev.2.contains(x) {
                    let j = choose|j: int| 0 <= j < prev.2.len() && prev.2[j] == x;
                    assert(cur.2[j] == x);
                }
                if x == chan {
                    assert(cur.2[prev.2.len() as int] == x);
                }
            }
            assert forall|i: int, j: int| 0 <= i < j < cur.2.len() implies cur.2[i] != cur.2[j] by {
                if j == prev.2.len() {
                    assert(prev.2.contains(prev.2[i]));
                }
            }
        } else {
            assert(cur.0 == prev.0);
            assert(cur.2 =~= prev.2);
            assert(step.1 is Some);
        }
    }
}

/// Ending a subscription keeps the client well formed.
proof fn lemma_without_subscription_wf(c: ClientView, sub: u32)
    requires
        c.wf(),
        c.subscriptions.contains_key(sub),
    ensures
        c.without_subscription(sub).wf(),
        c.without_subscription(sub).by_channel == c.by_channel.remove(c.subscriptions[sub]),
{
}

/// The subscriptions of an unsubscribe request end one after the other: only
/// client `cid` changes, it stays well formed, it loses exactly the channels
/// listed (each once), and it gains none.
proof fn lemma_unsubscribe_removals(s: StateView, cid: u32, subs: Seq<u32>)
    requires
        s.clients.contains_key(cid),
        s.clients[cid].wf(),
    ensures
        ({
            let r = unsubscribe_removals(s, cid, subs);
            &&& r.0.clients.contains_key(cid)
            &&& r.0.clients[cid].wf()
            &&& r.0.clients.dom() == s.clients.dom()
            &&& forall|w: u32| #[trigger] s.clients.contains_key(w) && w != cid ==> r.0.clients[w] == s.clients[w]
            &&& r.2.no_duplicates()
            &&& forall|ch: u32| #[trigger] r.2.contains(ch) <==> (s.clients[cid].by_channel.contains_key(ch)
                && !r.0.clients[cid].by_channel.contains_key(ch))
            &&& forall|ch: u32| #[trigger] r.0.clients[cid].by_channel.contains_key(ch) ==> s.clients[cid].by_channel.contains_key(ch)
        }),
    decreases subs.len(),
{
    if subs.len() > 0 {
        let init = subs.drop_last();
        lemma_unsubscribe_removals(s, cid, init);
        let prev = unsubscribe_removals(s, cid, init);
        let sub = subs.last();
        let step = unsubscribe_step(prev.0, cid, sub);
        let cur = unsubscribe_removals(s, cid, subs);
        let c = prev.0.clients[cid];
        assert(cur.0 == step.0 && cur.2 == prev.2 + opt_seq(step.2));
        if c.subscriptions.contains_key(sub) {
            let chan = c.subscriptions[sub];
            lemma_without_subscription_wf(c, sub);
            assert(c.by_channel.contains_key(chan));
            assert(!prev.2.contains(chan));
            assert(cur.2 == prev.2.push(chan));
            assert forall|ch: u32| #[trigger] cur.2.contains(ch) <==> (prev.2.contains(ch) || ch == chan) by {
                if cur.2.contains(ch) {
                    let j = choose|j: int| 0 <= j < cur.2.len() && cur.2[j] == ch;
                    if j < prev.2.len() {
                        assert(prev.2[j] == ch);
                    }
                }
                if prev.2.contains(ch) {
                    let j = choose|j: int| 0 <= j < prev.2.len() && prev.2[j] == ch;
                    assert(cur.2[j] == ch);
                }
                if ch == chan {
                    assert(cur.2[prev.2.len() as int] == ch);
                }
            }
            assert forall|i: int, j: int| 0 <= i < j < cur.2.len() implies cur.2[i] != cur.2[j] by {
                if j == prev.2.len() {
                    assert(prev.2.contains(prev.2[i]));
                }
            }
            assert(cur.0.clients.dom() =~= s.clients.dom());
        } else {
            assert(cur.2 =~= prev.2);
        }
    }
}

/// The listener hears of every subscription that an unsubscribe request
/// ends: of each channel that the client was subscribed to before and is not
/// after, once.
pub proof fn law_unsubscribe_announces_ended(s: StateView, cid: u32, subs: Seq<u32>)
    requires
        s.wf(),
        s.clients.contains_key(cid),
    ensures
        unsubscribe_spec(s, cid, subs).0.clients.contains_key(cid),
        unsubscribe_spec(s, cid, subs).2.no_duplicates(),
        forall|ch: u32| #[trigger] unsubscribe_spec(s, cid, subs).2.contains(ch) <==> (
            s.clients[cid].by_channel.contains_key(ch)
            && !unsubscribe_spec(s, cid, subs).0.clients[cid].by_channel.contains_key(ch)),
{
    lemma_unsubscribe_removals(s, cid, subs);
}

/// Unsubscribing from an accepted subscription undoes it: the state is as
/// before, no status is sent, and the listener hears of the same channel on
/// the way out as on the way in.
pub proof fn law_unsubscribe_undoes_subscribe(s: StateView, cid: u32, sub: Subscription)
    requires
        s.wf(),
        s.clients.contains_key(cid),
        subscribe_spec(s, cid, seq![sub]).1.len() == 0,
    ensures
        unsubscribe_spec(subscribe_spec(s, cid, seq![sub]).0, cid, seq![sub.id]).0 == s,
        unsubscribe_spec(subscribe_spec(s, cid, seq![sub]).0, cid, seq![sub.id]).1.len() == 0,
        unsubscribe_spec(subscribe_spec(s, cid, seq![sub]).0, cid, seq![sub.id]).2 == subscribe_spec(s, cid, seq![sub]).2,
{
    let subs = seq![sub];
    reveal_with_fuel(subscribe_spec, 2);
    reveal_with_fuel(unsubscribe_removals, 2);
    assert(subs.drop_last() =~= Seq::<Subscription>::empty());
    let c = s.clients[cid];
    let t = subscribe_spec(s, cid, subs);
    assert(t.0 == s.with_client(cid, c.with_subscription(sub.id, sub.channel_id)));
    let ids = seq![sub.id];
    assert(ids.drop_last() =~= Seq::<u32>::empty());
    let r = unsubscribe_removals(t.0, cid, ids);
    let c2 = t.0.clients[cid];
    assert(c2 == c.with_subscription(sub.id, sub.channel_id));
    assert(c2.without_subscription(sub.id).subscriptions =~= c.subscriptions);
    assert(c2.without_subscription(sub.id).by_channel =~= c.by_channel);
    assert(c2.without_subscription(sub.id) =~= c);
    assert(r.0.clients =~= s.clients);
    assert(r.0 =~= s);
    assert(r.2 =~= seq![sub.channel_id]);
    assert(t.2 =~= seq![sub.channel_id]);
}

/// Withdrawing a channel that a client just advertised undoes the
/// advertisement: the state is as before and no status is sent.
pub proof fn law_unadvertise_undoes_advertise(s: StateView, cid: u32, ch: Channel)
    requires
        s.wf(),
        s.clients.contains_key(cid),
        advertise_spec(s, cid, seq![ch]).1.len() == 0,
    ensures
        unadvertise_spec(advertise_spec(s, cid, seq![ch]).0, cid, seq![ch.id]).0 == s,
        unadvertise_spec(advertise_spec(s, cid, seq![ch]).0, cid, seq![ch.id]).1.len() == 0,
        advertise_spec(s, cid, seq![ch]).2 == seq![ch],
        unadvertise_spec(advertise_spec(s, cid, seq![ch]).0, cid, seq![ch.id]).2 == seq![ch.id],
{
    let chs = seq![ch];
    reveal_with_fuel(advertise_spec, 2);
    reveal_with_fuel(unadvertise_spec, 2);
    assert(chs.drop_last() =~= Seq::<Channel>::empty());
    let ids = seq![ch.id];
    assert(ids.drop_last() =~= Seq::<u32>::empty());
    let c = s.clients[cid];
    let t = advertise_spec(s, cid, chs);
    assert(t.0 == s.with_client(cid, c.with_advertisement(ch)));
    let c2 = t.0.clients[cid];
    assert(c2.without_advertisement(ch.id).advertisements =~= c.advertisements);
    assert(c2.without_advertisement(ch.id) =~= c);
    let u = unadvertise_spec(t.0, cid, ids);
    assert(u.0.clients =~= s.clients);
    assert(u.0 =~= s);
    assert(t.2 =~= seq![ch]);
    assert(u.2 =~= seq![ch.id]);
}

/// The names of a request to follow parameters that were new are appended
/// to the client's names, which stay free of duplicates; nothing else changes.
proof fn lemma_param_subscribe_shape(c: ClientView, ns: Seq<Seq<char>>)
    requires
        c.params.no_duplicates(),
    ensures
        param_subscribe_spec(c, ns).0 == c.with_params(c.params + param_subscribe_spec(c, ns).1),
        (c.params + param_subscribe_spec(c, ns).1).no_duplicates(),
    decreases ns.len(),
{
    if ns.len() > 0 {
        let init = ns.drop_last();
        lemma_param_subscribe_shape(c, init);
        let prev = param_subscribe_spec(c, init);
        let n = ns.last();
        let x = c.params + prev.1;
        if !has_param(x, n) {
            assert(x.push(n) =~= c.params + prev.1.push(n));
            assert(prev.0.with_params(x.push(n)) =~= c.with_params(c.params + prev.1.push(n)));
            assert forall|i: int, j: int| 0 <= i < j < x.len() + 1 implies x.push(n)[i] != x.push(n)[j] by {
                if j == x.len() {
                    assert(x[i] != n);
                }
            }
        }
    }
}

/// The names that a request reports as new on a prefix of its names start
/// the names it reports on all of them.
proof fn lemma_param_subscribe_prefix(c: ClientView, ns: Seq<Seq<char>>, k: int)
    requires
        0 <= k <= ns.len(),
    ensures
        param_subscribe_spec(c, ns.take(k)).1.len() <= param_subscribe_spec(c, ns).1.len(),
        param_subscribe_spec(c, ns).1.take(param_subscribe_spec(c, ns.take(k)).1.len() as int)
            == param_subscribe_spec(c, ns.take(k)).1,
    decreases ns.len(),
{
    let a = param_subscribe_spec(c, ns.take(k)).1;
    if k == ns.len() {
        assert(ns.take(k) =~= ns);
        assert(a.take(a.len() as int) =~= a);
    } else {
        let init = ns.drop_last();
        lemma_param_subscribe_prefix(c, init, k);
        assert(init.take(k) =~= ns.take(k));
        let b0 = param_subscribe_spec(c, init).1;
        let b = param_subscribe_spec(c, ns).1;
        assert(b == b0 || b == b0.push(ns.last()));
        assert(b.take(a.len() as int) =~= b0.take(a.len() as int));
    }
}

/// Stopping to follow, one after the other, the names of a prefix of a
/// request that made the client follow them: the names dropped are the
/// names that prefix made new, and the client keeps the rest.
proof fn lemma_param_unsubscribe_after_subscribe(c: ClientView, names: Seq<Seq<char>>, k: int)
    requires
        c.wf(),
        forall|i: int| 0 <= i < names.len() ==> !has_param(c.params, #[trigger] names[i]),
        0 <= k <= names.len(),
    ensures
        ({
            let full = param_subscribe_spec(c, names).1;
            let ak = param_subscribe_spec(c, names.take(k)).1;
            param_unsubscribe_spec(c.with_params(c.params + full), names.take(k))
                == (c.with_params(c.params + full.skip(ak.len() as int)), ak)
        }),
    decreases k,
{
    let p = c.params;
    let full = param_subscribe_spec(c, names).1;
    let cfull = c.with_params(p + full);
    lemma_param_subscribe_shape(c, names);
    if k == 0 {
        assert(names.take(0) =~= Seq::<Seq<char>>::empty());
        assert(full.skip(0) =~= full);
    } else {
        lemma_param_unsubscribe_after_subscribe(c, names, k - 1);
        let tk = names.take(k);
        assert(tk.drop_last() =~= names.take(k - 1));
        let n = names[k - 1];
        assert(tk.last() == n);
        let am = param_subscribe_spec(c, names.take(k - 1)).1;
        let ak = param_subscribe_spec(c, tk).1;
        let m = am.len() as int;
        lemma_param_subscribe_shape(c, names.take(k - 1));
        lemma_param_subscribe_prefix(c, names, k - 1);
        lemma_param_subscribe_prefix(c, names, k);
        assert(!has_param(p, n));
        let x = p + full.skip(m);
        let prev = param_unsubscribe_spec(cfull, names.take(k - 1));
        assert(prev == (c.with_params(x), am));
        assert(full.no_duplicates()) by {
            assert forall|i: int, j: int| 0 <= i < j < full.len() implies full[i] != full[j] by {
                assert((p + full)[p.len() + i] == full[i]);
                assert((p + full)[p.len() + j] == full[j]);
            }
        }
        assert(x.no_duplicates()) by {
            assert forall|i: int, j: int| 0 <= i < j < x.len() implies x[i] != x[j] by {
                if j < p.len() {
                    assert(x[i] == p[i] && x[j] == p[j]);
                } else if i < p.len() {
                    assert(x[i] == (p + full)[i]);
                    assert(x[j] == (p + full)[j + m]);
                } else {
                    assert(x[i] == full[i - p.len() + m]);
                    assert(x[j] == full[j - p.len() + m]);
                }
            }
        }
        if has_param(p + am, n) {
            assert(ak == am);
            let i0 = choose|i: int| 0 <= i < (p + am).len() && (p + am)[i] == n;
            if i0 < p.len() {
                assert(p[i0] == n);
            }
            let j0 = i0 - p.len();
            assert(am[j0] == n);
            assert(full.take(m)[j0] == n);
            assert(full[j0] == n);
            assert(!has_param(x, n)) by {
                if has_param(x, n) {
                    let i1 = choose|i: int| 0 <= i < x.len() && x[i] == n;
                    if i1 < p.len() {
                        assert(p[i1] == n);
                    } else {
                        assert(full[i1 - p.len() + m] == n);
                    }
                }
            }
        } else {
            assert(ak == am.push(n));
            assert(full.take(m + 1)[m] == n);
            assert(full[m] == n);
            assert(x[p.len() as int] == n);
            lemma_param_index(x, n, p.len() as int);
            assert(without_param(x, n) =~= p + full.skip(m + 1));
            assert(c.with_params(x).with_params(without_param(x, n)) =~= c.with_params(p + full.skip(m + 1)));
        }
    }
}

/// Stopping to follow the parameters that a request just made a client
/// follow undoes the request: the client is as before, and the names dropped
/// are the names the request reported as new, in the same order.
pub proof fn law_param_unsubscribe_undoes_subscribe(c: ClientView, names: Seq<Seq<char>>)
    requires
        c.wf(),
        forall|i: int| 0 <= i < names.len() ==> !has_param(c.params, #[trigger] names[i]),
    ensures
        param_unsubscribe_spec(param_subscribe_spec(c, names).0, names).0 == c,
        param_unsubscribe_spec(param_subscribe_spec(c, names).0, names).1 == param_subscribe_spec(c, names).1,
{
    let full = param_subscribe_spec(c, names).1;
    lemma_param_subscribe_shape(c, names);
    lemma_param_unsubscribe_after_subscribe(c, names, names.len() as int);
    assert(names.take(names.len() as int) =~= names);
    assert(c.params + full.skip(full.len() as int) =~= c.params);
    assert(c.with_params(c.params) =~= c);
}

/// A request to follow parameters leaves the client following all its names,
/// and all it followed before; nothing else changes.
proof fn lemma_param_subscribe_follows_all(c: ClientView, ns: Seq<Seq<char>>)
    ensures
        param_subscribe_spec(c, ns).0 == c.with_params(param_subscribe_spec(c, ns).0.params),
        forall|n: Seq<char>| has_param(c.params, n) ==> has_param(param_subscribe_spec(c, ns).0.params, n),
        forall|i: int| 0 <= i < ns.len() ==> has_param(param_subscribe_spec(c, ns).0.params, #[trigger] ns[i]),
    decreases ns.len(),
{
    if ns.len() > 0 {
        let init = ns.drop_last();
        lemma_param_subscribe_follows_all(c, init);
        let prev = param_subscribe_spec(c, init).0;
        let n = ns.last();
        let cur = param_subscribe_spec(c, ns).0;
        assert forall|x: Seq<char>| has_param(prev.params, x) implies has_param(cur.params, x) by {
            let j = choose|j: int| 0 <= j < prev.params.len() && prev.params[j] == x;
            if !has_param(prev.params, n) {
                assert(cur.params[j] == x);
            }
        }
        assert forall|i: int| 0 <= i < ns.len() implies has_param(cur.params, #[trigger] ns[i]) by {
            if i < ns.len() - 1 {
                assert(init[i] == ns[i]);
                assert(has_param(prev.params, init[i]));
            } else if !has_param(prev.params, n) {
                assert(cur.params[prev.params.len() as int] == n);
            }
        }
        if !has_param(prev.params, n) {
            assert(cur =~= c.with_params(cur.params));
        }
    }
}

/// A request to follow names the client already follows changes nothing and
/// reports no new name.
proof fn lemma_param_subscribe_known(c: ClientView, ns: Seq<Seq<char>>)
    requires
        forall|i: int| 0 <= i < ns.len() ==> has_param(c.params, #[trigger] ns[i]),
    ensures
        param_subscribe_spec(c, ns) == (c, Seq::<Seq<char>>::empty()),
    decreases ns.len(),
{
    if ns.len() > 0 {
        let init = ns.drop_last();
        assert forall|i: int| 0 <= i < init.len() implies has_param(c.params, #[trigger] init[i]) by {
            assert(init[i] == ns[i]);
        }
        lemma_param_subscribe_known(c, init);
        assert(has_param(c.params, ns[ns.len() - 1]));
    }
}

/// Repeating a request to follow parameters changes nothing and reports no
/// new name.
pub proof fn law_param_subscribe_repeat_changes_nothing(c: ClientView, names: Seq<Seq<char>>)
    ensures
        param_subscribe_spec(param_subscribe_spec(c, names).0, names) == (
            param_subscribe_spec(c, names).0,
            Seq::<Seq<char>>::empty(),
        ),
{
    lemma_param_subscribe_follows_all(c, names);
    lemma_param_subscribe_known(param_subscribe_spec(c, names).0, names);
}

/// The warning status that refuses each channel of `chs` as already advertised.
pub open spec fn advertise_warnings(chs: Seq<Channel>) -> Seq<(StatusLevel, Seq<char>)> {
    chs.map_values(|ch: Channel| (StatusLevel::Warning, with_number("Failed to add client channel "@, ch.id as nat, ""@)))
}

/// A client advertisement leaves client `cid` with each id of `chs`
/// advertised, and with what it advertised before unchanged; only that
/// client changes.
proof fn lemma_advertise_adds(s: StateView, cid: u32, chs: Seq<Channel>)
    requires
        s.clients.contains_key(cid),
    ensures
        ({
            let t = advertise_spec(s, cid, chs).0;
            &&& t.clients.contains_key(cid)
            &&& t == s.with_client(cid, t.clients[cid])
            &&& t.clients[cid] == s.clients[cid].with_advertisements(t.clients[cid].advertisements)
            &&& forall|k: u32| #[trigger] s.clients[cid].advertisements.contains_key(k) ==> t.clients[cid].advertisements.contains_key(k)
            &&& forall|i: int| 0 <= i < chs.len() ==> t.clients[cid].advertisements.contains_key(#[trigger] chs[i].id)
        }),
    decreases chs.len(),
{
    if chs.len() > 0 {
        let init = chs.drop_last();
        lemma_advertise_adds(s, cid, init);
        let prev = advertise_spec(s, cid, init).0;
        let ch = chs.last();
        let t = advertise_spec(s, cid, chs).0;
        assert forall|i: int| 0 <= i < chs.len() implies t.clients[cid].advertisements.contains_key(#[trigger] chs[i].id) by {
            if i < chs.len() - 1 {
                assert(init[i] == chs[i]);
                assert(prev.clients[cid].advertisements.contains_key(init[i].id));
            }
        }
        assert(t.clients =~= s.clients.insert(cid, t.clients[cid]));
        assert(t =~= s.with_client(cid, t.clients[cid]));
        assert(t.clients[cid] =~= s.clients[cid].with_advertisements(t.clients[cid].advertisements));
    } else {
        assert(s.clients =~= s.clients.insert(cid, s.clients[cid]));
        assert(s =~= s.with_client(cid, s.clients[cid]));
        assert(s.clients[cid] =~= s.clients[cid].with_advertisements(s.clients[cid].advertisements));
    }
}

/// Advertising only channel ids that client `cid` already advertised changes
/// nothing, announces nothing, and warns once per channel.
proof fn lemma_advertise_known(s: StateView, cid: u32, chs: Seq<Channel>)
    requires
        s.clients.contains_key(cid),
        forall|i: int| 0 <= i < chs.len() ==> s.clients[cid].advertisements.contains_key(#[trigger] chs[i].id),
    ensures
        advertise_spec(s, cid, chs) == (s, advertise_warnings(chs), Seq::<Channel>::empty()),
    decreases chs.len(),
{
    if chs.len() > 0 {
        let init = chs.drop_last();
        assert forall|i: int| 0 <= i < init.len() implies s.clients[cid].advertisements.contains_key(#[trigger] init[i].id) by {
            assert(init[i] == chs[i]);
        }
        lemma_advertise_known(s, cid, init);
        assert(s.clients[cid].advertisements.contains_key(chs[chs.len() - 1].id));
        assert(advertise_warnings(chs) =~= advertise_warnings(init).push(
            (StatusLevel::Warning, with_number("Failed to add client channel "@, chs.last().id as nat, ""@)),
        ));
        assert(advertise_warnings(init) + opt_seq(Some((StatusLevel::Warning, with_number("Failed to add client channel "@, chs.last().id as nat, ""@))))
            =~= advertise_warnings(chs));
        assert(Seq::<Channel>::empty() + opt_seq::<Channel>(None) =~= Seq::<Channel>::empty());
    } else {
        assert(advertise_warnings(chs) =~= Seq::empty());
    }
}

/// Repeating a client advertisement changes nothing, announces nothing to
/// the listener, and sends one warning per channel.
pub proof fn law_advertise_repeat_only_warns(s: StateView, cid: u32, chs: Seq<Channel>)
    requires
        s.clients.contains_key(cid),
    ensures
        advertise_spec(advertise_spec(s, cid, chs).0, cid, chs) == (
            advertise_spec(s, cid, chs).0,
            advertise_warnings(chs),
            Seq::<Channel>::empty(),
        ),
{
    lemma_advertise_adds(s, cid, chs);
    lemma_advertise_known(advertise_spec(s, cid, chs).0, cid, chs);
}

/// Removing the channel that was just added gives back the channels as they were.
pub proof fn law_remove_channel_undoes_add(s: StateView, ch: Channel)
    requires
        s.wf(),
    ensures
        remove_channel_spec(add_channel_spec(s, ch).0, add_channel_spec(s, ch).1).channels == s.channels,
        !s.channels.contains_key(add_channel_spec(s, ch).1),
{
    let id = s.next_channel_id;
    assert(!s.channels.contains_key(id));
    assert(s.channels.insert(id, crate::foxglove_state::channel_with_id(ch, id)).remove(id) =~= s.channels);
}

/// Removing the service that was just added gives back the services as they were.
pub proof fn law_remove_service_undoes_add(s: StateView, sv: Service)
    requires
        s.wf(),
    ensures
        remove_service_spec(add_service_spec(s, sv).0, add_service_spec(s, sv).1).services == s.services,
        !s.services.contains_key(add_service_spec(s, sv).1),
{
    let id = s.next_channel_id;
    assert(!s.services.contains_key(id));
    assert(s.services.insert(id, crate::foxglove_state::service_with_id(sv, id)).remove(id) =~= s.services);
}

/// A client that connects and disconnects leaves the other clients as they were.
pub proof fn law_disconnect_undoes_connect(s: StateView, remote: Seq<char>)
    requires
        s.wf(),
    ensures
        !s.clients.contains_key(s.next_client_id),
        disconnect_spec(connect_spec(s, remote), s.next_client_id).clients == s.clients,
{
    let id = s.next_client_id;
    assert(!s.clients.contains_key(id));
    assert(s.clients.insert(id, crate::client_state::fresh_client(remote)).remove(id) =~= s.clients);
}

/// The channels announced when a client disconnects (those it subscribed to
/// that nobody else does) are exactly the channels that had a subscriber
/// before and have none after.
pub proof fn law_disconnect_announces_last_subscribers(s: StateView, cid: u32, ch: u32)
    requires
        s.clients.contains_key(cid),
    ensures
        (s.clients[cid].by_channel.contains_key(ch) && !has_subscriber(disconnect_spec(s, cid), ch)) <==> (
        has_subscriber(s, ch) && !has_subscriber(disconnect_spec(s, cid), ch)),
{
    let t = disconnect_spec(s, cid);
    if has_subscriber(s, ch) && !has_subscriber(t, ch) {
        let w = choose|w: u32| #[trigger] s.clients.contains_key(w) && s.clients[w].by_channel.contains_key(ch);
        if w != cid {
            assert(t.clients.contains_key(w) && t.clients[w] == s.clients[w]);
        }
    }
}

/// A message-data frame is 13 bytes of header and the payload: opcode 1, the
/// subscription id, then the timestamp, both little-endian, and both read back
/// as they were written.
pub proof fn law_message_data_frame_layout(sub: u32, timestamp: u64, payload: Seq<u8>)
    ensures
        message_data_frame(sub, timestamp, payload).len() == 13 + payload.len(),
        message_data_frame(sub, timestamp, payload)[0] == 1,
        le_value(message_data_frame(sub, timestamp, payload).subrange(1, 5)) == sub,
        le_value(message_data_frame(sub, timestamp, payload).subrange(5, 13)) == timestamp,
        message_data_frame(sub, timestamp, payload).subrange(13, 13 + payload.len() as int) == payload,
{
    reveal_with_fuel(byte_base, 9);
    lemma_le_value_of_bytes(sub as nat, 4);
    lemma_le_value_of_bytes(timestamp as nat, 8);
    let f = message_data_frame(sub, timestamp, payload);
    assert(f.subrange(1, 5) =~= le_bytes(sub as nat, 4));
    assert(f.subrange(5, 13) =~= le_bytes(timestamp as nat, 8));
    assert(f.subrange(13, 13 + payload.len() as int) =~= payload);
}

/// The response to a service call repeats the request's header: after the
/// response opcode 3 come the same service id, call id, encoding length and
/// encoding bytes as in the request, byte for byte (for an encoding that is
/// named and is valid UTF-8).
pub proof fn law_service_call_response_echoes_request(msg: Seq<u8>, resp_encoding: Seq<char>)
    requires
        decode_client_frame(msg) is Ok,
        decode_client_frame(msg)->Ok_0 is ServiceCallRequest,
        valid_utf8(decode_client_frame(msg)->Ok_0->ServiceCallRequest_encoding),
        resp_encoding == decode_utf8(decode_client_frame(msg)->Ok_0->ServiceCallRequest_encoding),
    ensures
        ({
            let f = decode_client_frame(msg)->Ok_0;
            let enc = f->ServiceCallRequest_encoding;
            service_call_response_prefix(f->ServiceCallRequest_service_id, f->ServiceCallRequest_call_id, encode_utf8(resp_encoding))
                == seq![3u8] + msg.subrange(1, 13 + enc.len() as int)
        }),
{
    let f = decode_client_frame(msg)->Ok_0;
    let enc = f->ServiceCallRequest_encoding;
    vstd::utf8::decode_utf8_encode_utf8(enc);
    let a = msg.subrange(1, 5);
    let b = msg.subrange(5, 9);
    let l = msg.subrange(9, 13);
    lemma_le_value_bound(a);
    lemma_le_value_bound(b);
    lemma_le_value_bound(l);
    reveal_with_fuel(byte_base, 5);
    lemma_le_bytes_of_value(a);
    lemma_le_bytes_of_value(b);
    lemma_le_bytes_of_value(l);
    assert(enc.len() == le_value(l));
    assert((enc.len() as u32) as nat == le_value(l));
    assert(seq![3u8] + a + b + l + enc =~= seq![3u8] + msg.subrange(1, 13 + enc.len() as int));
}


/// A message that reaches the listener's `on_client_message` is always on a
/// channel that the client has advertised (and not withdrawn).
pub proof fn law_client_messages_use_advertised_channels(s: StateView, cid: u32, msg: Seq<u8>)
    requires
        s.clients.contains_key(cid),
    ensures
        binary_input_spec(s, cid, msg) is ClientMessage ==> s.clients[cid].advertisements.contains_key(
            binary_input_spec(s, cid, msg)->ClientMessage_channel_id,
        ),
        binary_input_spec(s, cid, msg) is ServiceCall ==> s.services.contains_key(
            binary_input_spec(s, cid, msg)->ServiceCall_service_id,
        ),
{
}

/// A server channel is stored under a fresh id, the next one of the counter,
/// exactly as it was given but for that id: its topic, encoding, schema name,
/// schema and schema encoding are the argument's. No other channel, no
/// client and no service changes; the advertised channel is the stored one.
pub proof fn law_add_channel_keeps_channel(s: StateView, ch: Channel)
    requires
        s.wf(),
    ensures
        ({
            let r = add_channel_spec(s, ch);
            let stored = r.0.channels[r.1];
            &&& r.1 == s.next_channel_id
            &&& !s.channels.contains_key(r.1)
            &&& r.0.channels.contains_key(r.1)
            &&& stored.id == r.1
            &&& stored.topic == ch.topic
            &&& stored.encoding == ch.encoding
            &&& stored.schema_name == ch.schema_name
            &&& stored.schema == ch.schema
            &&& stored.schema_encoding == ch.schema_encoding
            &&& stored == channel_with_id(ch, r.1)
            &&& r.0.channels.remove(r.1) == s.channels
            &&& r.0.clients == s.clients
            &&& r.0.services == s.services
        }),
{
    let r = add_channel_spec(s, ch);
    assert(r.0.channels.remove(r.1) =~= s.channels);
}

/// A service is stored under a fresh id, the next one of the shared counter,
/// exactly as it was given but for that id: its name, type, request schema
/// and response schema are the argument's. No other service, no client and
/// no channel changes; the advertised service is the stored one.
pub proof fn law_add_service_keeps_service(s: StateView, sv: Service)
    requires
        s.wf(),
    ensures
        ({
            let r = add_service_spec(s, sv);
            let stored = r.0.services[r.1];
            &&& r.1 == s.next_channel_id
            &&& !s.services.contains_key(r.1)
            &&& !s.channels.contains_key(r.1)
            &&& r.0.services.contains_key(r.1)
            &&& stored.id == r.1
            &&& stored.name == sv.name
            &&& stored.type_ == sv.type_
            &&& stored.request == sv.request
            &&& stored.response == sv.response
            &&& stored == service_with_id(sv, r.1)
            &&& r.0.services.remove(r.1) == s.services
            &&& r.0.clients == s.clients
            &&& r.0.channels == s.channels
        }),
{
    let r = add_service_spec(s, sv);
    assert(r.0.services.remove(r.1) =~= s.services);
}

/// A readable message-data frame on a channel that the client has advertised
/// always reaches the listener, with that channel id and payload, whatever
/// channels and services the server has of its own.
pub proof fn law_advertised_channel_messages_pass(s: StateView, cid: u32, msg: Seq<u8>)
    requires
        s.clients.contains_key(cid),
        decode_client_frame(msg) is Ok,
        decode_client_frame(msg)->Ok_0 is MessageData,
        s.clients[cid].advertisements.contains_key(decode_client_frame(msg)->Ok_0->MessageData_channel_id),
    ensures
        binary_input_spec(s, cid, msg) == (BinaryOutcome::ClientMessage {
            channel_id: decode_client_frame(msg)->Ok_0->MessageData_channel_id,
            payload: decode_client_frame(msg)->Ok_0->MessageData_payload,
        }),
{
}

/// A client is sent exactly the changed parameters whose names it follows:
/// every such parameter, whatever its value, type or id, and no other; in the
/// order in which they changed.
pub proof fn law_followed_params_sent(c: ClientView, ps: Seq<Parameter>)
    ensures
        forall|i: int| 0 <= i < ps.len() && has_param(c.params, ps[i].name@) ==> #[trigger] params_for(c, ps).contains(ps[i]),
        forall|p: Parameter| #[trigger] params_for(c, ps).contains(p) <==> (ps.contains(p) && has_param(c.params, p.name@)),
        params_for(c, ps).len() <= ps.len(),
{
    let pred = |p: Parameter| has_param(c.params, p.name@);
    broadcast use vstd::seq_lib::group_filter_ensures;
    ps.lemma_filter_len(pred);
    assert forall|i: int| 0 <= i < ps.len() && has_param(c.params, ps[i].name@) implies #[trigger] params_for(c, ps).contains(ps[i]) by {
        ps.lemma_filter_contains(pred, i);
    }
    assert forall|p: Parameter| #[trigger] params_for(c, ps).contains(p) <==> (ps.contains(p) && has_param(c.params, p.name@)) by {
        if params_for(c, ps).contains(p) {
            ps.lemma_filter_contains_rev(pred, p);
            let j = choose|j: int| 0 <= j < params_for(c, ps).len() && params_for(c, ps)[j] == p;
            ps.lemma_filter_pred(pred, j);
        }
        if ps.contains(p) && has_param(c.params, p.name@) {
            let i = choose|i: int| 0 <= i < ps.len() && ps[i] == p;
            ps.lemma_filter_contains(pred, i);
        }
    }
}

/// The warning sent for an id of an unsubscribe request that names no
/// subscription of the client.
pub open spec fn unsubscribe_warning(id: u32) -> (StatusLevel, Seq<char>) {
    (StatusLevel::Warning, with_number("Client subscription id "@, id as nat, " did not exist; ignoring unsubscription"@))
}

/// An unsubscribe request ends every listed subscription of the client and
/// no other: afterwards the client's subscriptions are those it had, less
/// every id of the request. A warning goes out for each listed id that was
/// no subscription before the request, and for no other id but one listed a
/// second time (ended already); every id is either ended or warned about.
/// No other client changes.
pub proof fn law_unsubscribe_ends_listed(s: StateView, cid: u32, subs: Seq<u32>)
    requires
        s.clients.contains_key(cid),
        s.clients[cid].wf(),
    ensures
        ({
            let r = unsubscribe_spec(s, cid, subs);
            let before = s.clients[cid].subscriptions;
            &&& r.0.clients.contains_key(cid)
            &&& r.0.clients[cid].subscriptions == before.remove_keys(subs.to_set())
            &&& forall|i: int| 0 <= i < subs.len() ==> !r.0.clients[cid].subscriptions.contains_key(#[trigger] subs[i])
            &&& forall|w: u32| #[trigger] s.clients.contains_key(w) && w != cid ==> r.0.clients[w] == s.clients[w]
            &&& r.0.clients.dom() == s.clients.dom()
            &&& r.1.len() + r.2.len() == subs.len()
            &&& forall|i: int| 0 <= i < subs.len() && !before.contains_key(subs[i]) ==> r.1.contains(#[trigger] unsubscribe_warning(subs[i]))
            &&& forall|k: int| 0 <= k < r.1.len() ==> exists|i: int| 0 <= i < subs.len()
                && #[trigger] r.1[k] == unsubscribe_warning(subs[i])
                && (!before.contains_key(subs[i]) || subs.take(i).contains(subs[i]))
        }),
    decreases subs.len(),
{
    lemma_unsubscribe_removals(s, cid, subs);
    let before = s.clients[cid].subscriptions;
    let cur = unsubscribe_removals(s, cid, subs);
    if subs.len() == 0 {
        assert(before.remove_keys(subs.to_set()) =~= before);
    } else {
        let init = subs.drop_last();
        law_unsubscribe_ends_listed(s, cid, init);
        lemma_unsubscribe_removals(s, cid, init);
        let prev = unsubscribe_removals(s, cid, init);
        let sub = subs.last();
        let step = unsubscribe_step(prev.0, cid, sub);
        assert(cur.0 == step.0 && cur.1 == prev.1 + opt_seq(step.1) && cur.2 == prev.2 + opt_seq(step.2));
        let c = prev.0.clients[cid];
        assert(c.subscriptions == before.remove_keys(init.to_set()));
        assert(subs.to_set() =~= init.to_set().insert(sub)) by {
            assert forall|x: u32| subs.to_set().contains(x) <==> init.to_set().insert(sub).contains(x) by {
                if subs.contains(x) {
                    let j = choose|j: int| 0 <= j < subs.len() && subs[j] == x;
                    if j < init.len() {
                        assert(init[j] == x);
                    }
                }
                if init.contains(x) {
                    let j = choose|j: int| 0 <= j < init.len() && init[j] == x;
                    assert(subs[j] == x);
                }
                if x == sub {
                    assert(subs[subs.len() - 1] == x);
                }
            }
        }
        assert(subs.take(subs.len() - 1) =~= init);
        if c.subscriptions.contains_key(sub) {
            assert(cur.0.clients[cid].subscriptions =~= before.remove_keys(subs.to_set()));
            assert(cur.1 =~= prev.1);
            assert(before.contains_key(sub));
            assert forall|i: int| 0 <= i < subs.len() && !before.contains_key(subs[i]) implies cur.1.contains(#[trigger] unsubscribe_warning(subs[i])) by {
                assert(init[i] == subs[i]);
            }
            assert forall|k: int| 0 <= k < cur.1.len() implies exists|i: int| 0 <= i < subs.len()
                && #[trigger] cur.1[k] == unsubscribe_warning(subs[i])
                && (!before.contains_key(subs[i]) || subs.take(i).contains(subs[i])) by {
                let i = choose|i: int| 0 <= i < init.len()
                    && #[trigger] prev.1[k] == unsubscribe_warning(init[i])
                    && (!before.contains_key(init[i]) || init.take(i).contains(init[i]));
                assert(subs[i] == init[i]);
                assert(subs.take(i) =~= init.take(i));
            }
        } else {
            assert(cur.0 == prev.0);
            assert(cur.0.clients[cid].subscriptions =~= before.remove_keys(subs.to_set()));
            assert(step.1 == Some(unsubscribe_warning(sub)));
            assert(cur.1 == prev.1.push(unsubscribe_warning(sub)));
            assert(cur.2 =~= prev.2);
            assert forall|i: int| 0 <= i < subs.len() && !before.contains_key(subs[i]) implies cur.1.contains(#[trigger] unsubscribe_warning(subs[i])) by {
                if i < init.len() {
                    assert(init[i] == subs[i]);
                    let k = choose|k: int| 0 <= k < prev.1.len() && prev.1[k] == unsubscribe_warning(init[i]);
                    assert(cur.1[k] == prev.1[k]);
                } else {
                    assert(cur.1[prev.1.len() as int] == unsubscribe_warning(sub));
                }
            }
            assert forall|k: int| 0 <= k < cur.1.len() implies exists|i: int| 0 <= i < subs.len()
                && #[trigger] cur.1[k] == unsubscribe_warning(subs[i])
                && (!before.contains_key(subs[i]) || subs.take(i).contains(subs[i])) by {
                if k < prev.1.len() {
                    let i = choose|i: int| 0 <= i < init.len()
                        && #[trigger] prev.1[k] == unsubscribe_warning(init[i])
                        && (!before.contains_key(init[i]) || init.take(i).contains(init[i]));
                    assert(subs[i] == init[i]);
                    assert(subs.take(i) =~= init.take(i));
                    assert(cur.1[k] == prev.1[k]);
                } else {
                    let i = subs.len() - 1;
                    assert(cur.1[k] == unsubscribe_warning(subs[i]));
                    if before.contains_key(sub) {
                        assert(init.to_set().contains(sub));
                        assert(init.contains(sub));
                    }
                }
            }
        }
        assert forall|i: int| 0 <= i < subs.len() implies !cur.0.clients[cid].subscriptions.contains_key(#[trigger] subs[i]) by {
            assert(subs.to_set().contains(subs[i]));
        }
    }
}

} // verus!
