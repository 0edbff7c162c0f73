//! Laws of delivery: what clients come to know of the worlds they watch. The
//! rows of a subscription, as a client keeps them from the messages it is
//! sent, are the rows the registry told of; and every committed tick reaches
//! the sessions attached to its world.

use vstd::prelude::*;

use crate::base::change::DeliveredRowView;
use crate::base::ids::{ConnectionId, RowId, SubscriptionId, WorldId};
use crate::base::message::{CallResultView, TickResultView};
use crate::base::subscription::SubscriptionUpdateView;
use crate::base::table::{ascending, ascending_lists};
use crate::network::answers::{offered, sending_offers_one_message};
use crate::network::gateway_laws::{extends_transitive, sending_keeps_calls};
use crate::network::gateway_model::{
    connections_valid, deltas_of, update_message, update_messages, updates_for, whole_updates,
    GatewayView, StepReport,
};
use crate::network::host::{extends, Exchange, PendingUpdatesView};
use crate::network::protocol::{DeltaKind, ServerMessageView};
use crate::runtime::metrics::counted;
use crate::runtime::model::RuntimeState;

verus! {

// ---------------------------------------------------------------- the client

/// What a client learns of a subscription.
#[allow(inconsistent_fields)]
pub enum News {
    /// The rows as they stand, in answer to a request.
    Shown { request_id: u64, seq: u64, rows: Seq<DeliveredRowView> },
    /// A row came in.
    Added { seq: u64, row: DeliveredRowView },
    /// A row changed.
    Changed { seq: u64, row: DeliveredRowView },
    /// A row went.
    Removed { seq: u64, row_id: RowId },
    /// The rows are no longer up to date.
    Outdated { seq: u64 },
    /// Something that no client understands.
    Garbled,
}

/// The news that an update of a registry is.
pub open spec fn news_of(update: SubscriptionUpdateView, request_id: u64) -> News {
    match update {
        SubscriptionUpdateView::Initial { seq, rows } => News::Shown { request_id, seq, rows },
        SubscriptionUpdateView::Resync { seq, rows } => News::Shown { request_id: 0, seq, rows },
        SubscriptionUpdateView::Insert { seq, row } => News::Added { seq, row },
        SubscriptionUpdateView::Update { seq, row } => News::Changed { seq, row },
        SubscriptionUpdateView::Delete { seq, row_id } => News::Removed { seq, row_id },
        SubscriptionUpdateView::Stale { seq } => News::Outdated { seq },
    }
}

/// Whether an update is of a single row.
pub open spec fn of_one_row(update: SubscriptionUpdateView) -> bool {
    update is Insert || update is Update || update is Delete
}

/// What a client reads from one row's delta.
pub open spec fn read_delta(
    seq: u64,
    kind: DeltaKind,
    row_id: RowId,
    row: Option<DeliveredRowView>,
) -> News {
    match (kind, row) {
        (DeltaKind::Insert, Some(row)) => if row.row_id == row_id {
            News::Added { seq, row }
        } else {
            News::Garbled
        },
        (DeltaKind::Update, Some(row)) => if row.row_id == row_id {
            News::Changed { seq, row }
        } else {
            News::Garbled
        },
        (DeltaKind::Delete, None) => News::Removed { seq, row_id },
        _ => News::Garbled,
    }
}

/// What a client reads from a message on one of its subscriptions.
pub open spec fn read(message: ServerMessageView, subscription: SubscriptionId) -> Seq<News> {
    match message {
        ServerMessageView::SubscriptionSnapshot { request_id, subscription: s, seq, rows } => if s
            == subscription {
            seq![News::Shown { request_id, seq, rows }]
        } else {
            Seq::empty()
        },
        ServerMessageView::SubscriptionDelta { subscription: s, seq, kind, row_id, row } => if s
            == subscription {
            seq![read_delta(seq, kind, row_id, row)]
        } else {
            Seq::empty()
        },
        ServerMessageView::SubscriptionDeltaBatch { subscription: s, deltas, .. } => if s
            == subscription {
            Seq::new(
                deltas.len(),
                |i: int| read_delta(
                    deltas[i].seq,
                    deltas[i].kind,
                    deltas[i].row_id,
                    deltas[i].row,
                ),
            )
        } else {
            Seq::empty()
        },
        ServerMessageView::StaleNotification { subscription: s, seq } => if s == subscription {
            seq![News::Outdated { seq }]
        } else {
            Seq::empty()
        },
        _ => Seq::empty(),
    }
}

/// What a client reads from several messages, in order.
pub open spec fn read_all(messages: Seq<ServerMessageView>, subscription: SubscriptionId) -> Seq<
    News,
>
    decreases messages.len(),
{
    if messages.len() == 0 {
        Seq::empty()
    } else {
        read_all(messages.drop_last(), subscription) + read(messages.last(), subscription)
    }
}

/// Rows by their ids; of rows with one id the last.
pub open spec fn rows_by_id(rows: Seq<DeliveredRowView>) -> Map<RowId, DeliveredRowView>
    decreases rows.len(),
{
    if rows.len() == 0 {
        Map::empty()
    } else {
        rows_by_id(rows.drop_last()).insert(rows.last().row_id, rows.last())
    }
}

/// A client's rows after some news.
pub open spec fn rows_after(rows: Map<RowId, DeliveredRowView>, news: News) -> Map<
    RowId,
    DeliveredRowView,
> {
    match news {
        News::Shown { rows: shown, .. } => rows_by_id(shown),
        News::Added { row, .. } => rows.insert(row.row_id, row),
        News::Changed { row, .. } => rows.insert(row.row_id, row),
        News::Removed { row_id, .. } => rows.remove(row_id),
        News::Outdated { .. } => rows,
        News::Garbled => Map::empty(),
    }
}

/// A client's rows after several news, in order.
pub open spec fn rows_after_all(rows: Map<RowId, DeliveredRowView>, news: Seq<News>) -> Map<
    RowId,
    DeliveredRowView,
>
    decreases news.len(),
{
    if news.len() == 0 {
        rows
    } else {
        rows_after(rows_after_all(rows, news.drop_last()), news.last())
    }
}

/// The news that several updates are, in order.
pub open spec fn all_news(updates: Seq<SubscriptionUpdateView>, request_id: u64) -> Seq<News> {
    Seq::new(updates.len(), |i: int| news_of(updates[i], request_id))
}

/// The updates among some that are of single rows, in order.
pub open spec fn row_updates(updates: Seq<SubscriptionUpdateView>) -> Seq<SubscriptionUpdateView> {
    updates.filter(|u: SubscriptionUpdateView| of_one_row(u))
}

/// The updates among some that are of no single row, in order.
pub open spec fn other_updates(updates: Seq<SubscriptionUpdateView>) -> Seq<
    SubscriptionUpdateView,
> {
    updates.filter(|u: SubscriptionUpdateView| !of_one_row(u))
}

/// What the client of a subscription is to learn from some updates: those of
/// no single row come first, and all else in order.
pub open spec fn learnt(updates: Seq<SubscriptionUpdateView>, request_id: u64) -> Seq<News> {
    all_news(other_updates(updates), request_id) + all_news(row_updates(updates), request_id)
}

proof fn split_once_more(updates: Seq<SubscriptionUpdateView>)
    requires
        updates.len() > 0,
    ensures
        of_one_row(updates.last()) ==> row_updates(updates) == row_updates(
            updates.drop_last(),
        ).push(updates.last()) && other_updates(updates) == other_updates(updates.drop_last()),
        !of_one_row(updates.last()) ==> other_updates(updates) == other_updates(
            updates.drop_last(),
        ).push(updates.last()) && row_updates(updates) == row_updates(updates.drop_last()),
{
    reveal(Seq::filter);
}

proof fn read_split(a: Seq<ServerMessageView>, b: ServerMessageView, s: SubscriptionId)
    ensures
        read_all(a.push(b), s) == read_all(a, s) + read(b, s),
{
    assert(a.push(b).drop_last() =~= a);
}

proof fn updates_are_read_apart(
    subscription: SubscriptionId,
    request_id: u64,
    updates: Seq<SubscriptionUpdateView>,
)
    ensures
        read_all(whole_updates(subscription, request_id, updates), subscription) == all_news(
            other_updates(updates),
            request_id,
        ),
        deltas_of(updates).len() == row_updates(updates).len(),
        forall|i: int|
            0 <= i < deltas_of(updates).len() ==> {
                let d = #[trigger] deltas_of(updates)[i];
                read_delta(d.seq, d.kind, d.row_id, d.row) == news_of(
                    row_updates(updates)[i],
                    request_id,
                )
            },
    decreases updates.len(),
{
    if updates.len() == 0 {
        reveal(Seq::filter);
        assert(all_news(other_updates(updates), request_id) =~= Seq::<News>::empty());
    } else {
        let earlier = updates.drop_last();
        let last = updates.last();
        updates_are_read_apart(subscription, request_id, earlier);
        split_once_more(updates);
        if !of_one_row(last) {
            read_split(
                whole_updates(subscription, request_id, earlier),
                update_message(subscription, request_id, last),
                subscription,
            );
            assert(all_news(other_updates(updates), request_id) =~= all_news(
                other_updates(earlier),
                request_id,
            ) + seq![news_of(last, request_id)]);
        }
    }
}

/// The messages that tell some updates tell exactly those updates: a client
/// reads from them each update's own news, those of no single row first and
/// all else in order, and they are on that subscription alone. The first rows
/// shown carry the request they answer.
pub proof fn updates_are_told_as_they_are(
    subscription: SubscriptionId,
    other: SubscriptionId,
    request_id: u64,
    updates: Seq<SubscriptionUpdateView>,
)
    requires
        other != subscription,
    ensures
        ({
            let messages = update_messages(subscription, request_id, updates);
            &&& read_all(messages, subscription) == learnt(updates, request_id)
            &&& read_all(messages, other) == Seq::<News>::empty()
            &&& forall|i: int|
                0 <= i < messages.len() ==> read(#[trigger] messages[i], other)
                    == Seq::<News>::empty()
            &&& updates.len() > 0 ==> messages.len() > 0
            &&& messages.len() <= updates.len()
        }),
{
    let messages = update_messages(subscription, request_id, updates);
    updates_are_read_apart(subscription, request_id, updates);
    elsewhere_nothing(subscription, other, request_id, updates);
    if updates.len() == 0 {
        reveal(Seq::filter);
        assert(learnt(updates, request_id) =~= Seq::<News>::empty());
    } else if updates.len() == 1 {
        let earlier = updates.drop_last();
        split_once_more(updates);
        reveal(Seq::filter);
        assert(earlier =~= Seq::<SubscriptionUpdateView>::empty());
        assert(messages.drop_last() =~= Seq::<ServerMessageView>::empty());
        assert(updates.last() == updates[0]);
        assert(learnt(updates, request_id) =~= seq![news_of(updates[0], request_id)]);
        let empty = Seq::<ServerMessageView>::empty();
        assert(messages =~= empty.push(update_message(subscription, request_id, updates[0])));
        read_split(empty, update_message(subscription, request_id, updates[0]), subscription);
        assert(read(update_message(subscription, request_id, updates[0]), subscription) =~= seq![
            news_of(updates[0], request_id),
        ]);
        assert(read_all(messages, subscription) =~= seq![news_of(updates[0], request_id)]);
    } else {
        let whole = whole_updates(subscription, request_id, updates);
        let deltas = deltas_of(updates);
        if deltas.len() > 0 {
            let batch = ServerMessageView::SubscriptionDeltaBatch {
                subscription,
                request_id,
                deltas,
            };
            read_split(whole, batch, subscription);
            assert(read(batch, subscription) =~= all_news(row_updates(updates), request_id));
        } else {
            assert(learnt(updates, request_id) =~= all_news(other_updates(updates), request_id));
        }
    }
}

proof fn elsewhere_nothing(
    subscription: SubscriptionId,
    other: SubscriptionId,
    request_id: u64,
    updates: Seq<SubscriptionUpdateView>,
)
    requires
        other != subscription,
    ensures
        ({
            let whole = whole_updates(subscription, request_id, updates);
            let messages = update_messages(subscription, request_id, updates);
            &&& forall|i: int|
                0 <= i < whole.len() ==> read(#[trigger] whole[i], other) == Seq::<News>::empty()
            &&& whole.len() + deltas_of(updates).len() == updates.len()
            &&& forall|i: int|
                0 <= i < messages.len() ==> read(#[trigger] messages[i], other)
                    == Seq::<News>::empty()
            &&& read_all(messages, other) == Seq::<News>::empty()
        }),
    decreases updates.len(),
{
    let whole = whole_updates(subscription, request_id, updates);
    let messages = update_messages(subscription, request_id, updates);
    if updates.len() > 0 {
        elsewhere_nothing(subscription, other, request_id, updates.drop_last());
        let earlier = whole_updates(subscription, request_id, updates.drop_last());
        assert forall|i: int| 0 <= i < whole.len() implies read(#[trigger] whole[i], other)
            == Seq::<News>::empty() by {
            if i < earlier.len() {
                assert(whole[i] == earlier[i]);
            }
        }
    }
    assert forall|i: int| 0 <= i < messages.len() implies read(#[trigger] messages[i], other)
        == Seq::<News>::empty() by {
        if updates.len() > 1 && i < whole.len() {
            assert(messages[i] == whole[i]);
        }
    }
    read_nothing(messages, other);
}

proof fn read_nothing(messages: Seq<ServerMessageView>, s: SubscriptionId)
    requires
        forall|i: int|
            0 <= i < messages.len() ==> read(#[trigger] messages[i], s) == Seq::<News>::empty(),
    ensures
        read_all(messages, s) == Seq::<News>::empty(),
    decreases messages.len(),
{
    if messages.len() > 0 {
        let earlier = messages.drop_last();
        assert forall|i: int| 0 <= i < earlier.len() implies read(#[trigger] earlier[i], s)
            == Seq::<News>::empty() by {
            assert(earlier[i] == messages[i]);
        }
        read_nothing(earlier, s);
        assert(messages[messages.len() - 1] == messages.last());
        assert(read_all(messages, s) =~= Seq::<News>::empty());
    }
}

proof fn rows_after_both(rows: Map<RowId, DeliveredRowView>, a: Seq<News>, b: Seq<News>)
    ensures
        rows_after_all(rows, a + b) == rows_after_all(rows_after_all(rows, a), b),
    decreases b.len(),
{
    if b.len() == 0 {
        assert(a + b =~= a);
    } else {
        rows_after_both(rows, a, b.drop_last());
        assert((a + b).drop_last() =~= a + b.drop_last());
    }
}

proof fn one_news(rows: Map<RowId, DeliveredRowView>, news: News)
    ensures
        rows_after_all(rows, seq![news]) == rows_after(rows, news),
{
    assert(seq![news].drop_last() =~= Seq::<News>::empty());
    assert(rows_after_all(rows, seq![news].drop_last()) == rows);
}

proof fn rows_come_out_alike(
    rows: Map<RowId, DeliveredRowView>,
    updates: Seq<SubscriptionUpdateView>,
    request_id: u64,
)
    requires
        forall|i: int, j: int|
            #![trigger updates[i], updates[j]]
            0 <= i < j < updates.len() && of_one_row(updates[i]) ==> !(updates[j] is Initial) && !(
            updates[j] is Resync),
    ensures
        rows_after_all(rows, learnt(updates, request_id)) == rows_after_all(
            rows,
            all_news(updates, request_id),
        ),
    decreases updates.len(),
{
    if updates.len() == 0 {
        reveal(Seq::filter);
        assert(learnt(updates, request_id) =~= all_news(updates, request_id));
    } else {
        let earlier = updates.drop_last();
        let last = updates.last();
        assert forall|i: int, j: int|
            #![trigger earlier[i], earlier[j]]
            0 <= i < j < earlier.len() && of_one_row(earlier[i]) implies !(earlier[j] is Initial)
            && !(earlier[j] is Resync) by {
            assert(earlier[i] == updates[i] && earlier[j] == updates[j]);
        }
        rows_come_out_alike(rows, earlier, request_id);
        split_once_more(updates);
        let whole = all_news(other_updates(earlier), request_id);
        let deltas = all_news(row_updates(earlier), request_id);
        let news = news_of(last, request_id);
        rows_after_both(rows, whole, deltas);
        assert(all_news(updates, request_id) =~= all_news(earlier, request_id) + seq![news]);
        rows_after_both(rows, all_news(earlier, request_id), seq![news]);
        one_news(rows_after_all(rows, all_news(earlier, request_id)), news);
        if of_one_row(last) {
            assert(all_news(row_updates(updates), request_id) =~= deltas + seq![news]);
            assert(learnt(updates, request_id) =~= (whole + deltas) + seq![news]);
            rows_after_both(rows, whole + deltas, seq![news]);
            one_news(rows_after_all(rows, whole + deltas), news);
        } else {
            assert(all_news(other_updates(updates), request_id) =~= whole + seq![news]);
            assert(learnt(updates, request_id) =~= (whole + seq![news]) + deltas);
            rows_after_both(rows, whole, seq![news]);
            rows_after_both(rows, whole + seq![news], deltas);
            one_news(rows_after_all(rows, whole), news);
            if !(last is Stale) {
                assert(row_updates(earlier).len() == 0) by {
                    if row_updates(earlier).len() > 0 {
                        earlier_row_update(earlier);
                        let i = choose|i: int|
                            0 <= i < earlier.len() && of_one_row(#[trigger] earlier[i]);
                        assert(updates[i] == earlier[i]);
                        assert(updates[updates.len() - 1] == last);
                    }
                }
                assert(deltas =~= Seq::<News>::empty());
            }
        }
    }
}

proof fn earlier_row_update(updates: Seq<SubscriptionUpdateView>)
    requires
        row_updates(updates).len() > 0,
    ensures
        exists|i: int| 0 <= i < updates.len() && of_one_row(#[trigger] updates[i]),
    decreases updates.len(),
{
    reveal(Seq::filter);
    if updates.len() > 0 {
        split_once_more(updates);
        if of_one_row(updates.last()) {
            assert(of_one_row(updates[updates.len() - 1]));
        } else {
            earlier_row_update(updates.drop_last());
            let i = choose|i: int|
                0 <= i < updates.drop_last().len() && of_one_row(
                    #[trigger] updates.drop_last()[i],
                );
            assert(updates[i] == updates.drop_last()[i]);
        }
    }
}

/// A client that keeps its rows by the messages it is sent on a subscription
/// has the rows that the registry's updates make: after an insert or an update
/// of a row that row's new content, after a delete nothing under its id, after
/// rows were shown those rows, and everything else as before. This needs that
/// no rows are shown behind an update of a single row, since what shows rows
/// is sent ahead of those.
pub proof fn clients_rows_follow_the_registry(
    rows: Map<RowId, DeliveredRowView>,
    subscription: SubscriptionId,
    request_id: u64,
    updates: Seq<SubscriptionUpdateView>,
)
    requires
        forall|i: int, j: int|
            #![trigger updates[i], updates[j]]
            0 <= i < j < updates.len() && of_one_row(updates[i]) ==> !(updates[j] is Initial) && !(
            updates[j] is Resync),
    ensures
        rows_after_all(
            rows,
            read_all(update_messages(subscription, request_id, updates), subscription),
        ) == rows_after_all(rows, all_news(updates, request_id)),
{
    updates_are_told_as_they_are(
        subscription,
        SubscriptionId(if subscription.0 == 0 {
            1
        } else {
            0
        }),
        request_id,
        updates,
    );
    rows_come_out_alike(rows, updates, request_id);
}

// ----------------------------------------------------------- what goes out

/// What is of interest among messages that went out, in order.
pub open spec fn gathered<X>(
    messages: Seq<(ConnectionId, ServerMessageView)>,
    pick: spec_fn(ConnectionId, ServerMessageView) -> Seq<X>,
) -> Seq<X>
    decreases messages.len(),
{
    if messages.len() == 0 {
        Seq::empty()
    } else {
        gathered(messages.drop_last(), pick) + pick(messages.last().0, messages.last().1)
    }
}

/// Everything of interest that a gateway has sent.
pub open spec fn sent_so_far<X>(
    gateway: GatewayView,
    pick: spec_fn(ConnectionId, ServerMessageView) -> Seq<X>,
) -> Seq<X> {
    gathered(offered(gateway.history), pick)
}

/// No connection is new.
pub open spec fn none_new(before: GatewayView, after: GatewayView) -> bool {
    forall|c: u64| #[trigger] after.connections.contains_key(c) ==> before.connections.contains_key(
        c,
    )
}

proof fn sending_adds<X>(
    gateway: GatewayView,
    c: ConnectionId,
    message: ServerMessageView,
    h: Seq<Exchange>,
    pick: spec_fn(ConnectionId, ServerMessageView) -> Seq<X>,
)
    ensures
        ({
            let after = gateway.sent(c, message, h).0;
            &&& none_new(gateway, after)
            &&& gateway.connections.contains_key(c.0) ==> sent_so_far(after, pick) == sent_so_far(
                gateway,
                pick,
            ) + pick(c, message)
            &&& !gateway.connections.contains_key(c.0) ==> after == gateway
            &&& pick(c, message) == Seq::<X>::empty() ==> sent_so_far(after, pick) == sent_so_far(
                gateway,
                pick,
            )
            &&& forall|d: u64|
                d != c.0 ==> (#[trigger] after.connections.contains_key(d)
                    <==> gateway.connections.contains_key(d))
            &&& forall|d: u64| d != c.0 ==> #[trigger] after.connections[d] == gateway.connections[d]
            &&& after.config == gateway.config && after.runtime == gateway.runtime
        }),
{
    let after = gateway.sent(c, message, h).0;
    sending_offers_one_message(gateway, c, message, h);
    sending_keeps_calls(gateway, c, message, h);
    reveal(GatewayView::sent);
    reveal(GatewayView::disconnected);
    let earlier = offered(gateway.history);
    assert(earlier.push((c, message)).drop_last() =~= earlier);
    assert(sent_so_far(gateway, pick) + Seq::<X>::empty() =~= sent_so_far(gateway, pick));
}

proof fn recording_adds_nothing<X>(
    gateway: GatewayView,
    exchange: Exchange,
    pick: spec_fn(ConnectionId, ServerMessageView) -> Seq<X>,
)
    requires
        !(exchange is Offered),
    ensures
        sent_so_far(gateway.recorded(exchange), pick) == sent_so_far(gateway, pick),
{
    assert(gateway.history.push(exchange).drop_last() =~= gateway.history);
}

proof fn telling_adds<X>(
    gateway: GatewayView,
    c: ConnectionId,
    messages: Seq<ServerMessageView>,
    h: Seq<Exchange>,
    pick: spec_fn(ConnectionId, ServerMessageView) -> Seq<X>,
)
    ensures
        ({
            let after = gateway.updates_sent(c, messages, h);
            &&& none_new(gateway, after)
            &&& after.connections.contains_key(c.0) ==> sent_so_far(after, pick) == sent_so_far(
                gateway,
                pick,
            ) + picked_from(c, messages, pick)
            &&& (forall|i: int|
                0 <= i < messages.len() ==> pick(c, #[trigger] messages[i]) == Seq::<X>::empty())
                ==> sent_so_far(after, pick) == sent_so_far(gateway, pick)
            &&& forall|d: u64|
                d != c.0 ==> (#[trigger] after.connections.contains_key(d)
                    <==> gateway.connections.contains_key(d))
            &&& forall|d: u64| d != c.0 ==> #[trigger] after.connections[d] == gateway.connections[d]
            &&& after.config == gateway.config && after.runtime == gateway.runtime
        }),
    decreases messages.len(),
{
    if messages.len() == 0 {
        assert(sent_so_far(gateway, pick) + Seq::<X>::empty() =~= sent_so_far(gateway, pick));
    } else {
        let earlier = messages.drop_last();
        let last = messages.last();
        telling_adds(gateway, c, earlier, h, pick);
        let before = gateway.updates_sent(c, earlier, h);
        sending_adds(before, c, last, h, pick);
        let after = gateway.updates_sent(c, messages, h);
        assert((sent_so_far(gateway, pick) + picked_from(c, earlier, pick)) + pick(c, last)
            =~= sent_so_far(gateway, pick) + picked_from(c, messages, pick));
        assert forall|d: u64| d != c.0 implies (#[trigger] after.connections.contains_key(d)
            <==> gateway.connections.contains_key(d)) by {
            assert(before.connections.contains_key(d) <==> gateway.connections.contains_key(d));
        }
        if forall|i: int|
            0 <= i < messages.len() ==> pick(c, #[trigger] messages[i]) == Seq::<X>::empty() {
            assert forall|i: int| 0 <= i < earlier.len() implies pick(c, #[trigger] earlier[i])
                == Seq::<X>::empty() by {
                assert(earlier[i] == messages[i]);
            }
            assert(messages[messages.len() - 1] == last);
        }
    }
}

/// What is of interest among messages to a connection, in order.
pub open spec fn picked_from<X>(
    c: ConnectionId,
    messages: Seq<ServerMessageView>,
    pick: spec_fn(ConnectionId, ServerMessageView) -> Seq<X>,
) -> Seq<X>
    decreases messages.len(),
{
    if messages.len() == 0 {
        Seq::empty()
    } else {
        picked_from(c, messages.drop_last(), pick) + pick(c, messages.last())
    }
}

/// What a connection's client reads on one of its subscriptions.
pub open spec fn reading(c: ConnectionId, subscription: SubscriptionId) -> spec_fn(
    ConnectionId,
    ServerMessageView,
) -> Seq<News> {
    |to: ConnectionId, message: ServerMessageView|
        if to == c {
            read(message, subscription)
        } else {
            Seq::empty()
        }
}

/// Everything that a connection's client was told on one of its subscriptions.
pub open spec fn told(gateway: GatewayView, c: ConnectionId, subscription: SubscriptionId) -> Seq<
    News,
> {
    sent_so_far(gateway, reading(c, subscription))
}

proof fn picked_is_read(
    c: ConnectionId,
    messages: Seq<ServerMessageView>,
    subscription: SubscriptionId,
)
    ensures
        picked_from(c, messages, reading(c, subscription)) == read_all(messages, subscription),
    decreases messages.len(),
{
    if messages.len() > 0 {
        picked_is_read(c, messages.drop_last(), subscription);
    }
}

/// Pumping a subscription asks the world's registry for what is pending and
/// tells the client exactly that, unless the connection is lost over it: the
/// client reads every drained update's news, and nothing else. When the
/// registry refuses, or the world cannot be asked, the client is told nothing.
pub proof fn pumping_tells_what_was_drained(
    gateway: GatewayView,
    c: ConnectionId,
    world: WorldId,
    subscription: SubscriptionId,
    request_id: u64,
    h: Seq<Exchange>,
)
    ensures
        ({
            let after = gateway.pumped(c, world, subscription, request_id, h);
            let n = gateway.history.len() as int;
            let reachable = gateway.runtime.state == RuntimeState::Running
                && gateway.runtime.worlds.contains_key(world.0);
            let drained = after.history[n]->Drained_answer;
            &&& !reachable ==> after == gateway
            &&& reachable ==> after.history.len() > n && (after.history[n] matches
                Exchange::Drained { world: w, subscription: s, .. } && w == world && s
                == subscription)
            &&& reachable && h[n] is Drained ==> drained == h[n]->Drained_answer
            &&& reachable && drained is Err ==> told(after, c, subscription) == told(
                gateway,
                c,
                subscription,
            )
            &&& reachable && drained is Ok && after.connections.contains_key(c.0) ==> told(
                after,
                c,
                subscription,
            ) == told(gateway, c, subscription) + learnt(drained->Ok_0, request_id)
            &&& none_new(gateway, after)
        }),
{
    reveal(GatewayView::pumped);
    let n = gateway.history.len() as int;
    let answer = match gateway.next(h) {
        Exchange::Drained { answer, .. } => answer,
        _ => Ok(Seq::empty()),
    };
    let exchange = Exchange::Drained { world, subscription, answer };
    let asked = gateway.recorded(exchange);
    recording_adds_nothing(gateway, exchange, reading(c, subscription));
    if let Ok(updates) = answer {
        let messages = update_messages(subscription, request_id, updates);
        telling_adds(asked, c, messages, h, reading(c, subscription));
        telling_extends(asked, c, messages, h);
        picked_is_read(c, messages, subscription);
        updates_are_told_as_they_are(
            subscription,
            SubscriptionId(if subscription.0 == 0 {
                1
            } else {
                0
            }),
            request_id,
            updates,
        );
    }
}

/// Telling messages adds to the record alone.
pub proof fn telling_extends(
    gateway: GatewayView,
    c: ConnectionId,
    messages: Seq<ServerMessageView>,
    h: Seq<Exchange>,
)
    ensures
        extends(gateway.history, gateway.updates_sent(c, messages, h).history),
    decreases messages.len(),
{
    if messages.len() > 0 {
        telling_extends(gateway, c, messages.drop_last(), h);
        let before = gateway.updates_sent(c, messages.drop_last(), h);
        reveal(GatewayView::sent);
        reveal(GatewayView::disconnected);
        extends_transitive(
            gateway.history,
            before.history,
            gateway.updates_sent(c, messages, h).history,
        );
    }
}

// ------------------------------------------------------------------ fan-out

proof fn subscriptions_tell(
    gateway: GatewayView,
    c: ConnectionId,
    ids: Seq<u64>,
    drained: Seq<PendingUpdatesView>,
    h: Seq<Exchange>,
    d: ConnectionId,
    subscription: SubscriptionId,
)
    requires
        ids.no_duplicates(),
    ensures
        ({
            let after = gateway.subscriptions_told(c, ids, drained, h);
            let before = told(gateway, d, subscription);
            &&& none_new(gateway, after)
            &&& forall|e: u64|
                e != c.0 ==> (#[trigger] after.connections.contains_key(e)
                    <==> gateway.connections.contains_key(e))
            &&& forall|e: u64| e != c.0 ==> #[trigger] after.connections[e] == gateway.connections[e]
            &&& d != c ==> told(after, d, subscription) == before
            &&& !ids.contains(subscription.0) ==> told(after, d, subscription) == before
            &&& d == c && ids.contains(subscription.0) && after.connections.contains_key(c.0)
                ==> told(after, d, subscription) == before + news_drained(drained, subscription)
        }),
    decreases ids.len(),
{
    if ids.len() > 0 {
        let shorter = ids.drop_last();
        assert forall|i: int, j: int| 0 <= i < shorter.len() && 0 <= j < shorter.len() && i
            != j implies shorter[i] != shorter[j] by {
            assert(ids[i] != ids[j]);
        }
        subscriptions_tell(gateway, c, shorter, drained, h, d, subscription);
        let middle = gateway.subscriptions_told(c, shorter, drained, h);
        let after = gateway.subscriptions_told(c, ids, drained, h);
        let id = SubscriptionId(ids.last());
        let before = told(gateway, d, subscription);
        assert(ids.contains(subscription.0) <==> shorter.contains(subscription.0) || id
            == subscription) by {
            if shorter.contains(subscription.0) {
                assert(ids[shorter.index_of(subscription.0)] == subscription.0);
            }
            if ids.contains(subscription.0) && id != subscription {
                assert(shorter[ids.index_of(subscription.0)] == subscription.0);
            }
            if id == subscription {
                assert(ids[ids.len() - 1] == subscription.0);
            }
        }
        if id == subscription {
            assert(!shorter.contains(subscription.0)) by {
                if shorter.contains(subscription.0) {
                    let k = shorter.index_of(subscription.0);
                    assert(ids[k] == ids[ids.len() - 1]);
                }
            }
        }
        drained_for(drained, id);
        match updates_for(drained, id) {
            None => {
                assert(before + Seq::<News>::empty() =~= before);
            },
            Some(updates) => {
                let messages = update_messages(id, 0, updates);
                telling_adds(middle, c, messages, h, reading(d, subscription));
                if d == c && id == subscription {
                    picked_is_read(c, messages, subscription);
                    updates_are_told_as_they_are(
                        subscription,
                        SubscriptionId(if subscription.0 == 0 {
                            1
                        } else {
                            0
                        }),
                        0,
                        updates,
                    );
                } else {
                    if id != subscription {
                        updates_are_told_as_they_are(id, subscription, 0, updates);
                    }
                    assert forall|i: int| 0 <= i < messages.len() implies reading(d, subscription)(
                        c,
                        #[trigger] messages[i],
                    ) == Seq::<News>::empty() by {
                    }
                }
            },
        }
        assert forall|e: u64| e != c.0 implies (#[trigger] after.connections.contains_key(e)
            <==> gateway.connections.contains_key(e)) by {
            assert(middle.connections.contains_key(e) <==> gateway.connections.contains_key(e));
        }
    }
}

/// The news that a drain of a world's registry brings on a subscription: those
/// of the last entry listed for it, if there is any.
pub open spec fn news_drained(
    drained: Seq<PendingUpdatesView>,
    subscription: SubscriptionId,
) -> Seq<News>
    decreases drained.len(),
{
    if drained.len() == 0 {
        Seq::empty()
    } else if drained.last().subscription == subscription {
        learnt(drained.last().updates, 0)
    } else {
        news_drained(drained.drop_last(), subscription)
    }
}

proof fn drained_for(drained: Seq<PendingUpdatesView>, subscription: SubscriptionId)
    ensures
        match updates_for(drained, subscription) {
            Some(updates) => news_drained(drained, subscription) == learnt(updates, 0),
            None => news_drained(drained, subscription) == Seq::<News>::empty(),
        },
    decreases drained.len(),
{
    if drained.len() > 0 {
        drained_for(drained.drop_last(), subscription);
    }
}

/// Whether a connection has a subscription on a world.
pub open spec fn watches(
    gateway: GatewayView,
    c: ConnectionId,
    subscription: SubscriptionId,
    world: WorldId,
) -> bool {
    &&& gateway.connections.contains_key(c.0)
    &&& gateway.connections[c.0].subscriptions.contains_key(subscription.0)
    &&& gateway.connections[c.0].subscriptions[subscription.0] == world
}

/// Every connection has finitely many subscriptions.
pub open spec fn finitely_subscribed(gateway: GatewayView) -> bool {
    forall|c: u64| #[trigger]
        gateway.connections.contains_key(c)
            ==> gateway.connections[c].subscriptions.dom().finite()
}

proof fn distinct_ids(set: Set<u64>)
    requires
        set.finite(),
    ensures
        ascending(set).no_duplicates(),
        forall|x: u64| #[trigger] ascending(set).contains(x) <==> set.contains(x),
{
    ascending_lists(set);
    let ids = ascending(set);
    assert forall|i: int, j: int| 0 <= i < ids.len() && 0 <= j < ids.len() && i != j implies ids[i]
        != ids[j] by {
        if i < j {
            assert(ids[i] < ids[j]);
        } else {
            assert(ids[j] < ids[i]);
        }
    }
    assert forall|x: u64| #[trigger] ids.contains(x) <==> set.contains(x) by {
        assert(ids.to_set().contains(x) <==> set.contains(x));
    }
}

proof fn watched_ids(gateway: GatewayView, c: u64, world: WorldId)
    requires
        finitely_subscribed(gateway),
    ensures
        ascending(gateway.subscriptions_on(c, world)).no_duplicates(),
        forall|s: u64| #[trigger]
            ascending(gateway.subscriptions_on(c, world)).contains(s) <==> watches(
                gateway,
                ConnectionId(c),
                SubscriptionId(s),
                world,
            ),
{
    let on = gateway.subscriptions_on(c, world);
    if gateway.connections.contains_key(c) {
        assert(on.subset_of(gateway.connections[c].subscriptions.dom()));
        vstd::set_lib::lemma_len_subset(on, gateway.connections[c].subscriptions.dom());
    } else {
        assert(on =~= Set::<u64>::empty());
    }
    distinct_ids(on);
}

proof fn connections_tell(
    gateway: GatewayView,
    ids: Seq<u64>,
    world: WorldId,
    drained: Seq<PendingUpdatesView>,
    h: Seq<Exchange>,
    d: ConnectionId,
    subscription: SubscriptionId,
)
    requires
        ids.no_duplicates(),
        finitely_subscribed(gateway),
    ensures
        ({
            let after = gateway.connections_told(ids, world, drained, h);
            let before = told(gateway, d, subscription);
            &&& none_new(gateway, after)
            &&& forall|e: u64|
                !ids.contains(e) ==> (#[trigger] after.connections.contains_key(e)
                    <==> gateway.connections.contains_key(e))
            &&& forall|e: u64|
                !ids.contains(e) ==> #[trigger] after.connections[e] == gateway.connections[e]
            &&& !ids.contains(d.0) ==> told(after, d, subscription) == before
            &&& ids.contains(d.0) && after.connections.contains_key(d.0) ==> told(
                after,
                d,
                subscription,
            ) == if watches(gateway, d, subscription, world) {
                before + news_drained(drained, subscription)
            } else {
                before
            }
        }),
    decreases ids.len(),
{
    if ids.len() > 0 {
        let shorter = ids.drop_last();
        assert forall|i: int, j: int| 0 <= i < shorter.len() && 0 <= j < shorter.len() && i
            != j implies shorter[i] != shorter[j] by {
            assert(ids[i] != ids[j]);
        }
        connections_tell(gateway, shorter, world, drained, h, d, subscription);
        let middle = gateway.connections_told(shorter, world, drained, h);
        let after = gateway.connections_told(ids, world, drained, h);
        let c = ids.last();
        assert(!shorter.contains(c)) by {
            if shorter.contains(c) {
                assert(ids[shorter.index_of(c)] == ids[ids.len() - 1]);
            }
        }
        assert forall|e: u64| #[trigger] ids.contains(e) <==> shorter.contains(e) || e == c by {
            if shorter.contains(e) {
                assert(ids[shorter.index_of(e)] == e);
            }
            if ids.contains(e) && e != c {
                assert(shorter[ids.index_of(e)] == e);
            }
            if e == c {
                assert(ids[ids.len() - 1] == e);
            }
        }
        assert(middle.connections.contains_key(c) <==> gateway.connections.contains_key(c));
        assert(middle.connections[c] == gateway.connections[c]);
        assert(middle.subscriptions_on(c, world) =~= gateway.subscriptions_on(c, world));
        watched_ids(gateway, c, world);
        let own = ascending(middle.subscriptions_on(c, world));
        subscriptions_tell(middle, ConnectionId(c), own, drained, h, d, subscription);
        assert(own.contains(subscription.0) <==> watches(
            gateway,
            ConnectionId(c),
            subscription,
            world,
        ));
        assert forall|e: u64| !ids.contains(e) implies (#[trigger] after.connections.contains_key(e)
            <==> gateway.connections.contains_key(e)) by {
            assert(!shorter.contains(e));
            assert(middle.connections.contains_key(e) <==> gateway.connections.contains_key(e));
        }
        assert forall|e: u64| !ids.contains(e) implies #[trigger] after.connections[e]
            == gateway.connections[e] by {
            assert(!shorter.contains(e));
            assert(middle.connections[e] == gateway.connections[e]);
        }
    }
}

/// The committed ticks that a connection is told of.
pub open spec fn hearing(c: ConnectionId) -> spec_fn(ConnectionId, ServerMessageView) -> Seq<
    ServerMessageView,
> {
    |to: ConnectionId, message: ServerMessageView|
        if to == c && message is TickUpdate {
            seq![message]
        } else {
            Seq::empty()
        }
}

/// Every committed tick that a connection was told of.
pub open spec fn ticks_heard(gateway: GatewayView, c: ConnectionId) -> Seq<ServerMessageView> {
    sent_so_far(gateway, hearing(c))
}

/// Whether a message is on a subscription.
pub open spec fn on_a_subscription(message: ServerMessageView) -> bool {
    message is SubscriptionSnapshot || message is SubscriptionDelta
        || message is SubscriptionDeltaBatch || message is StaleNotification
}

proof fn updates_are_on_a_subscription(
    subscription: SubscriptionId,
    request_id: u64,
    updates: Seq<SubscriptionUpdateView>,
)
    ensures
        ({
            let whole = whole_updates(subscription, request_id, updates);
            let messages = update_messages(subscription, request_id, updates);
            &&& forall|i: int| 0 <= i < whole.len() ==> on_a_subscription(#[trigger] whole[i])
            &&& forall|i: int| 0 <= i < messages.len() ==> on_a_subscription(#[trigger] messages[i])
        }),
    decreases updates.len(),
{
    if updates.len() > 0 {
        updates_are_on_a_subscription(subscription, request_id, updates.drop_last());
        let earlier = whole_updates(subscription, request_id, updates.drop_last());
        let whole = whole_updates(subscription, request_id, updates);
        assert forall|i: int| 0 <= i < whole.len() implies on_a_subscription(
            #[trigger] whole[i],
        ) by {
            if i < earlier.len() {
                assert(whole[i] == earlier[i]);
            }
        }
        let messages = update_messages(subscription, request_id, updates);
        assert forall|i: int| 0 <= i < messages.len() implies on_a_subscription(
            #[trigger] messages[i],
        ) by {
            if updates.len() > 1 && i < whole.len() {
                assert(messages[i] == whole[i]);
            }
        }
    }
}

proof fn subscriptions_add_no_ticks(
    gateway: GatewayView,
    c: ConnectionId,
    ids: Seq<u64>,
    drained: Seq<PendingUpdatesView>,
    h: Seq<Exchange>,
    d: ConnectionId,
)
    ensures
        ticks_heard(gateway.subscriptions_told(c, ids, drained, h), d) == ticks_heard(gateway, d),
    decreases ids.len(),
{
    if ids.len() > 0 {
        subscriptions_add_no_ticks(gateway, c, ids.drop_last(), drained, h, d);
        let middle = gateway.subscriptions_told(c, ids.drop_last(), drained, h);
        let id = SubscriptionId(ids.last());
        if let Some(updates) = updates_for(drained, id) {
            let messages = update_messages(id, 0, updates);
            updates_are_on_a_subscription(id, 0, updates);
            telling_adds(middle, c, messages, h, hearing(d));
            assert forall|i: int| 0 <= i < messages.len() implies hearing(d)(
                c,
                #[trigger] messages[i],
            ) == Seq::<ServerMessageView>::empty() by {
                assert(on_a_subscription(messages[i]));
            }
        }
    }
}

proof fn connections_add_no_ticks(
    gateway: GatewayView,
    ids: Seq<u64>,
    world: WorldId,
    drained: Seq<PendingUpdatesView>,
    h: Seq<Exchange>,
    d: ConnectionId,
)
    ensures
        ticks_heard(gateway.connections_told(ids, world, drained, h), d) == ticks_heard(gateway, d),
    decreases ids.len(),
{
    if ids.len() > 0 {
        connections_add_no_ticks(gateway, ids.drop_last(), world, drained, h, d);
        let middle = gateway.connections_told(ids.drop_last(), world, drained, h);
        subscriptions_add_no_ticks(
            middle,
            ConnectionId(ids.last()),
            ascending(middle.subscriptions_on(ids.last(), world)),
            drained,
            h,
            d,
        );
    }
}

proof fn routing_adds_nothing<X>(
    gateway: GatewayView,
    world: WorldId,
    results: Seq<CallResultView>,
    h: Seq<Exchange>,
    pick: spec_fn(ConnectionId, ServerMessageView) -> Seq<X>,
)
    requires
        forall|to: ConnectionId, message: ServerMessageView|
            message is ReducerResult ==> #[trigger] pick(to, message) == Seq::<X>::empty(),
    ensures
        sent_so_far(gateway.results_routed(world, results, h), pick) == sent_so_far(gateway, pick),
        none_new(gateway, gateway.results_routed(world, results, h)),
    decreases results.len(),
{
    if results.len() > 0 {
        routing_adds_nothing(gateway, world, results.drop_last(), h, pick);
        let middle = gateway.results_routed(world, results.drop_last(), h);
        let after = gateway.results_routed(world, results, h);
        let result = results.last();
        let id = result.request_id;
        if middle.pending.contains_key(id) && middle.pending[id].world == world {
            reveal(GatewayView::call_answered);
            let call = middle.pending[id];
            let reply = GatewayView::call_reply(call.client_request_id, result.outcome);
            let forgotten = middle.call_forgotten(id, call);
            assert(forgotten.connections.dom() =~= middle.connections.dom());
            sending_adds(forgotten, call.connection, reply, h, pick);
            assert(pick(call.connection, reply) == Seq::<X>::empty());
            assert forall|c: u64| #[trigger]
                after.connections.contains_key(c) implies gateway.connections.contains_key(c) by {
                assert(forgotten.connections.contains_key(c));
                assert(middle.connections.dom().contains(c));
                assert(middle.connections.contains_key(c));
            }
        }
    }
}

proof fn broadcasting_adds<X>(
    gateway: GatewayView,
    ids: Seq<u64>,
    message: ServerMessageView,
    report: StepReport,
    h: Seq<Exchange>,
    d: ConnectionId,
    pick: spec_fn(ConnectionId, ServerMessageView) -> Seq<X>,
)
    requires
        ids.no_duplicates(),
        forall|to: ConnectionId, m: ServerMessageView|
            to != d ==> #[trigger] pick(to, m) == Seq::<X>::empty(),
    ensures
        ({
            let after = gateway.broadcast(ids, message, report, h).0;
            &&& none_new(gateway, after)
            &&& forall|e: u64|
                !ids.contains(e) ==> (#[trigger] after.connections.contains_key(e)
                    <==> gateway.connections.contains_key(e))
            &&& forall|e: u64|
                after.connections.contains_key(e) ==> (#[trigger] after.connections[e]).subscriptions
                    == gateway.connections[e].subscriptions
            &&& sent_so_far(after, pick) == if ids.contains(d.0)
                && gateway.connections.contains_key(d.0) {
                sent_so_far(gateway, pick) + pick(d, message)
            } else {
                sent_so_far(gateway, pick)
            }
            &&& after.runtime == gateway.runtime && after.config == gateway.config
        }),
    decreases ids.len(),
{
    if ids.len() > 0 {
        let shorter = ids.drop_last();
        assert forall|i: int, j: int| 0 <= i < shorter.len() && 0 <= j < shorter.len() && i
            != j implies shorter[i] != shorter[j] by {
            assert(ids[i] != ids[j]);
        }
        broadcasting_adds(gateway, shorter, message, report, h, d, pick);
        let middle = gateway.broadcast(shorter, message, report, h).0;
        let after = gateway.broadcast(ids, message, report, h).0;
        let c = ids.last();
        assert(!shorter.contains(c)) by {
            if shorter.contains(c) {
                assert(ids[shorter.index_of(c)] == ids[ids.len() - 1]);
            }
        }
        assert forall|e: u64| #[trigger] ids.contains(e) <==> shorter.contains(e) || e == c by {
            if shorter.contains(e) {
                assert(ids[shorter.index_of(e)] == e);
            }
            if ids.contains(e) && e != c {
                assert(shorter[ids.index_of(e)] == e);
            }
            if e == c {
                assert(ids[ids.len() - 1] == e);
            }
        }
        sending_adds(middle, ConnectionId(c), message, h, pick);
        sending_keeps_subscriptions(middle, ConnectionId(c), message, h);
        assert(middle.connections.contains_key(c) <==> gateway.connections.contains_key(c));
        if c != d.0 {
            assert(pick(ConnectionId(c), message) == Seq::<X>::empty());
        }
        assert forall|e: u64| !ids.contains(e) implies (#[trigger] after.connections.contains_key(e)
            <==> gateway.connections.contains_key(e)) by {
            assert(!shorter.contains(e));
            assert(middle.connections.contains_key(e) <==> gateway.connections.contains_key(e));
        }
        assert forall|e: u64|
            after.connections.contains_key(e) implies (#[trigger] after.connections[e]).subscriptions
            == gateway.connections[e].subscriptions by {
            assert(middle.connections.contains_key(e));
            assert(middle.connections[e].subscriptions == gateway.connections[e].subscriptions);
        }
    }
}

proof fn sending_keeps_subscriptions(
    gateway: GatewayView,
    c: ConnectionId,
    message: ServerMessageView,
    h: Seq<Exchange>,
)
    ensures
        ({
            let after = gateway.sent(c, message, h).0;
            forall|e: u64|
                after.connections.contains_key(e) ==> (#[trigger] after.connections[e]).subscriptions
                    == gateway.connections[e].subscriptions
        }),
{
    reveal(GatewayView::sent);
    reveal(GatewayView::disconnected);
}

/// A connection whose session is attached to a world.
pub open spec fn in_world(gateway: GatewayView, c: ConnectionId, world: WorldId) -> bool {
    gateway.connections.contains_key(c.0) && (gateway.connections[c.0].session matches Some(session)
        && session.attached_world == Some(world))
}

/// Every committed tick with something to tell reaches every session attached
/// to its world, once: the connection is offered a broadcast that names the
/// world, the tick and the transaction, and carries exactly the events that the
/// tick emitted, in order, and its changes if the gateway is to tell those. A
/// tick with nothing to tell is told all the same, unless the gateway is to skip
/// such. No other connection is told of it.
pub proof fn ticks_reach_the_attached(
    gateway: GatewayView,
    world: WorldId,
    result: TickResultView,
    report: StepReport,
    h: Seq<Exchange>,
    c: ConnectionId,
)
    requires
        gateway.valid(),
    ensures
        ({
            let after = gateway.world_fanned_out(world, result, report, h).0;
            let changes = if gateway.config.tick_update_changes {
                result.changes
            } else {
                Seq::empty()
            };
            let due = result.events.len() > 0 || changes.len() > 0
                || !gateway.config.skip_empty_broadcast;
            let broadcast = ServerMessageView::TickUpdate {
                world,
                tick: result.tick,
                tx_id: result.tx_id,
                changes,
                events: result.events,
            };
            ticks_heard(after, c) == if in_world(gateway, c, world) && due {
                ticks_heard(gateway, c).push(broadcast)
            } else {
                ticks_heard(gateway, c)
            }
        }),
{
    reveal(connections_valid);
    reveal(GatewayView::world_fanned_out);
    reveal(GatewayView::deltas_delivered);
    let begun = StepReport { worlds: counted(report.worlds), ..report };
    let heard = gateway.tick_told(world, result, begun, h).0;
    let before = ticks_heard(gateway, c);
    let message = gateway.tick_update(world, result);
    assert(ticks_heard(heard, c) == if in_world(gateway, c, world) && gateway.broadcasts(result) {
        before + hearing(c)(c, message)
    } else {
        before
    }) by {
        reveal(GatewayView::tick_told);
        let attached = gateway.attached_to(world);
        assert(attached.subset_of(gateway.connections.dom()));
        vstd::set_lib::lemma_len_subset(attached, gateway.connections.dom());
        distinct_ids(attached);
        assert(ascending(attached).contains(c.0) <==> in_world(gateway, c, world));
        broadcasting_adds(gateway, ascending(attached), message, begun, h, c, hearing(c));
    }
    assert(before + seq![message] =~= before.push(message));
    let delivered = if result.changes.len() > 0 {
        heard.deltas_delivered(world, h)
    } else {
        heard
    };
    assert(ticks_heard(delivered, c) == ticks_heard(heard, c)) by {
        let answer = match heard.next(h) {
            Exchange::DrainedAll { answer, .. } => answer,
            _ => Ok(Seq::empty()),
        };
        let exchange = Exchange::DrainedAll { world, answer };
        recording_adds_nothing(heard, exchange, hearing(c));
        if let Ok(updates) = answer {
            connections_add_no_ticks(
                heard.recorded(exchange),
                ascending(heard.connections.dom()),
                world,
                updates,
                h,
                c,
            );
        }
    }
    routing_adds_nothing(delivered, world, result.reducer_results, h, hearing(c));
}

/// When a committed tick changed something and its world can be asked, the
/// world's registry is drained, and every connection with a subscription on the
/// world is told exactly what was drained for it, unless it is lost on the way.
/// What was drained for others, or for other worlds' subscriptions, it is not
/// told. A tick that changed nothing tells no subscription anything.
pub proof fn changes_reach_the_watchers(
    gateway: GatewayView,
    world: WorldId,
    result: TickResultView,
    report: StepReport,
    h: Seq<Exchange>,
    c: ConnectionId,
    subscription: SubscriptionId,
)
    requires
        gateway.valid(),
    ensures
        ({
            let after = gateway.world_fanned_out(world, result, report, h).0;
            let before = told(gateway, c, subscription);
            let reachable = gateway.runtime.state == RuntimeState::Running
                && gateway.runtime.worlds.contains_key(world.0);
            &&& result.changes.len() == 0 || !reachable ==> told(after, c, subscription) == before
            &&& result.changes.len() > 0 && reachable && after.connections.contains_key(c.0)
                && watches(gateway, c, subscription, world) ==> exists|n: int|
                gateway.history.len() <= n < after.history.len() && (#[trigger] after.history[n]
                    matches Exchange::DrainedAll { world: w, answer } && w == world && told(
                    after,
                    c,
                    subscription,
                ) == match answer {
                    Ok(drained) => before + news_drained(drained, subscription),
                    Err(_) => before,
                })
            &&& after.connections.contains_key(c.0) && !watches(gateway, c, subscription, world)
                ==> told(after, c, subscription) == before
            &&& none_new(gateway, after)
        }),
{
    reveal(connections_valid);
    reveal(GatewayView::world_fanned_out);
    let begun = StepReport { worlds: counted(report.worlds), ..report };
    let heard = gateway.tick_told(world, result, begun, h).0;
    let before = told(gateway, c, subscription);
    let message = gateway.tick_update(world, result);
    let pick = reading(c, subscription);
    assert(told(heard, c, subscription) == before && none_new(gateway, heard)
        && finitely_subscribed(heard) && heard.runtime == gateway.runtime
        && heard.connections.dom().finite() && extends(gateway.history, heard.history)
        && forall|e: u64|
        heard.connections.contains_key(e) ==> (#[trigger] heard.connections[e]).subscriptions
            == gateway.connections[e].subscriptions) by {
        reveal(GatewayView::tick_told);
        let attached = gateway.attached_to(world);
        assert(attached.subset_of(gateway.connections.dom()));
        vstd::set_lib::lemma_len_subset(attached, gateway.connections.dom());
        distinct_ids(attached);
        broadcasting_adds(gateway, ascending(attached), message, begun, h, c, pick);
        broadcasting_extends(gateway, ascending(attached), message, begun, h);
        assert(before + Seq::<News>::empty() =~= before);
        assert(heard.connections.dom().subset_of(gateway.connections.dom())) by {
            assert forall|e: u64| heard.connections.dom().contains(
                e,
            ) implies gateway.connections.dom().contains(e) by {
                assert(heard.connections.contains_key(e));
            }
        }
        vstd::set_lib::lemma_len_subset(heard.connections.dom(), gateway.connections.dom());
        assert forall|e: u64| #[trigger]
            heard.connections.contains_key(e) implies heard.connections[e].subscriptions.dom().finite() by {
            assert(heard.connections[e].subscriptions == gateway.connections[e].subscriptions);
        }
    }
    let delivered = if result.changes.len() > 0 {
        heard.deltas_delivered(world, h)
    } else {
        heard
    };
    let after = gateway.world_fanned_out(world, result, report, h).0;
    routing_adds_nothing(delivered, world, result.reducer_results, h, pick);
    routing_extends(delivered, world, result.reducer_results, h);
    if result.changes.len() > 0 {
        reveal(GatewayView::deltas_delivered);
        let answer = match heard.next(h) {
            Exchange::DrainedAll { answer, .. } => answer,
            _ => Ok(Seq::empty()),
        };
        let exchange = Exchange::DrainedAll { world, answer };
        let asked = heard.recorded(exchange);
        let n = heard.history.len() as int;
        recording_adds_nothing(heard, exchange, pick);
        if let Ok(drained) = answer {
            let ids = ascending(heard.connections.dom());
            distinct_ids(heard.connections.dom());
            connections_tell(asked, ids, world, drained, h, c, subscription);
            connections_extend(asked, ids, world, drained, h);
        }
        if watches(heard, c, subscription, world) {
            assert(heard.subscriptions_on(c.0, world).contains(subscription.0));
            assert(heard.watched(world));
        }
        if heard.watched(world) && !(heard.runtime.world_access(world) is Err) {
            assert(asked.history[n] == exchange);
            assert(delivered.history[n] == exchange);
            assert(after.history[n] == exchange);
        }
        if after.connections.contains_key(c.0) {
            assert(delivered.connections.contains_key(c.0));
            assert(heard.connections.contains_key(c.0));
            assert(watches(heard, c, subscription, world) == watches(
                gateway,
                c,
                subscription,
                world,
            ));
        }
    }
}

proof fn broadcasting_extends(
    gateway: GatewayView,
    ids: Seq<u64>,
    message: ServerMessageView,
    report: StepReport,
    h: Seq<Exchange>,
)
    ensures
        extends(gateway.history, gateway.broadcast(ids, message, report, h).0.history),
    decreases ids.len(),
{
    if ids.len() > 0 {
        broadcasting_extends(gateway, ids.drop_last(), message, report, h);
        let before = gateway.broadcast(ids.drop_last(), message, report, h).0;
        reveal(GatewayView::sent);
        reveal(GatewayView::disconnected);
        extends_transitive(
            gateway.history,
            before.history,
            gateway.broadcast(ids, message, report, h).0.history,
        );
    }
}

proof fn routing_extends(
    gateway: GatewayView,
    world: WorldId,
    results: Seq<CallResultView>,
    h: Seq<Exchange>,
)
    ensures
        extends(gateway.history, gateway.results_routed(world, results, h).history),
    decreases results.len(),
{
    if results.len() > 0 {
        routing_extends(gateway, world, results.drop_last(), h);
        let before = gateway.results_routed(world, results.drop_last(), h);
        reveal(GatewayView::call_answered);
        reveal(GatewayView::sent);
        reveal(GatewayView::disconnected);
        extends_transitive(
            gateway.history,
            before.history,
            gateway.results_routed(world, results, h).history,
        );
    }
}

proof fn subscriptions_extend(
    gateway: GatewayView,
    c: ConnectionId,
    ids: Seq<u64>,
    drained: Seq<PendingUpdatesView>,
    h: Seq<Exchange>,
)
    ensures
        extends(gateway.history, gateway.subscriptions_told(c, ids, drained, h).history),
    decreases ids.len(),
{
    if ids.len() > 0 {
        subscriptions_extend(gateway, c, ids.drop_last(), drained, h);
        let before = gateway.subscriptions_told(c, ids.drop_last(), drained, h);
        let id = SubscriptionId(ids.last());
        if let Some(updates) = updates_for(drained, id) {
            telling_extends(before, c, update_messages(id, 0, updates), h);
            extends_transitive(
                gateway.history,
                before.history,
                gateway.subscriptions_told(c, ids, drained, h).history,
            );
        }
    }
}

proof fn connections_extend(
    gateway: GatewayView,
    ids: Seq<u64>,
    world: WorldId,
    drained: Seq<PendingUpdatesView>,
    h: Seq<Exchange>,
)
    ensures
        extends(gateway.history, gateway.connections_told(ids, world, drained, h).history),
    decreases ids.len(),
{
    if ids.len() > 0 {
        connections_extend(gateway, ids.drop_last(), world, drained, h);
        let before = gateway.connections_told(ids.drop_last(), world, drained, h);
        subscriptions_extend(
            before,
            ConnectionId(ids.last()),
            ascending(before.subscriptions_on(ids.last(), world)),
            drained,
            h,
        );
        extends_transitive(
            gateway.history,
            before.history,
            gateway.connections_told(ids, world, drained, h).history,
        );
    }
}

} // verus!
