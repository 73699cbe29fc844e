//! What holds of the link and the panel as a whole.
pub mod calls;

use crate::frame::{frame_of, payload_of, starts_with_frame, TwoU32};
use crate::link::{pair_report, pair_reports, ActionView, EventView, LinkState};
use crate::message::{ReportView, RequestView};
use crate::panel::{showable, PanelState, PortInfoView};
use crate::stream::{
    after_frames, frames_in, law_noise_is_skipped, law_pending_is_short, law_reads_may_be_cut,
    lemma_frames_by_next, pending,
};
use crate::text::{lemma_ascii_splits_at_four, starts_with_four};
use vstd::prelude::*;

verus! {

/// Whatever happens, the link keeps less than a frame.
pub proof fn law_link_keeps_little(link: LinkState, event: EventView)
    requires
        link.wf(),
    ensures
        link.step(event).0.wf(),
{
    match event {
        EventView::Received(bytes) => {
            law_pending_is_short(link.buffer + bytes);
        },
        _ => {},
    }
}

/// The link after these events, in order.
pub open spec fn link_after(link: LinkState, events: Seq<EventView>) -> LinkState
    decreases events.len(),
{
    if events.len() == 0 {
        link
    } else {
        link_after(link, events.drop_last()).step(events.last()).0
    }
}

/// From the start on, the link keeps less than a frame, whatever happens and however often.
pub proof fn law_link_always_keeps_little(events: Seq<EventView>)
    ensures
        link_after(LinkState::initial(), events).wf(),
    decreases events.len(),
{
    if events.len() > 0 {
        law_link_always_keeps_little(events.drop_last());
        law_link_keeps_little(
            link_after(LinkState::initial(), events.drop_last()),
            events.last(),
        );
    }
}

/// What is kept of received bytes is never too much: the frames are reported, and nothing else.
pub proof fn law_buffer_is_never_cleared(link: LinkState, bytes: Seq<u8>)
    requires
        bytes.len() > 0,
    ensures
        link.step(EventView::Received(bytes)) == (
            LinkState { buffer: pending(link.buffer + bytes), ..link },
            pair_reports(frames_in(link.buffer + bytes)),
        ),
{
    law_pending_is_short(link.buffer + bytes);
}

/// Bytes that arrive in two reads are reported as if they had arrived in one.
pub proof fn law_two_reads_report_as_one(link: LinkState, x: Seq<u8>, y: Seq<u8>)
    ensures
        ({
            let (middle, first) = link.step(EventView::Received(x));
            let second = middle.step(EventView::Received(y)).1;
            link.step(EventView::Received(x + y)).1 == first + second
        }),
{
    let all = link.buffer + x;
    if x.len() == 0 {
        assert(x + y =~= y);
        let second = link.step(EventView::Received(y)).1;
        assert(Seq::<ActionView>::empty() + second =~= second);
    } else {
        law_buffer_is_never_cleared(link, x);
        let (middle, first) = link.step(EventView::Received(x));
        law_buffer_is_never_cleared(link, x + y);
        if y.len() == 0 {
            assert(x + y =~= x);
            assert(first + Seq::<ActionView>::empty() =~= first);
        } else {
            law_buffer_is_never_cleared(middle, y);
            law_reads_may_be_cut(all, y);
            assert(all + y =~= link.buffer + (x + y));
            assert(pair_reports(frames_in(all) + frames_in(pending(all) + y)) =~= pair_reports(
                frames_in(all),
            ) + pair_reports(frames_in(pending(all) + y)));
        }
    }
}

/// A pair that one link sends is what the other reports, and only that, if no frame starts in
/// what the other has kept before.
pub proof fn law_sent_pair_is_reported(sender: LinkState, receiver: LinkState, pair: TwoU32)
    requires
        sender.open,
        forall|j: int|
            0 <= j < receiver.buffer.len() ==> !starts_with_frame(
                #[trigger] (receiver.buffer + frame_of(payload_of(pair))).skip(j),
            ),
    ensures
        ({
            let request = RequestView::RxPair { a: pair.a, b: pair.b };
            let (_, actions) = sender.step(EventView::Request(request));
            &&& actions.len() == 1
            &&& actions[0] is Write
            &&& receiver.step(EventView::Received(actions[0]->Write_0)) == (
                LinkState { buffer: Seq::empty(), ..receiver },
                seq![pair_report(pair)],
            )
        }),
{
    let f = frame_of(payload_of(pair));
    let rest = Seq::<u8>::empty();
    let all = receiver.buffer + f;
    assert(f + rest =~= f);
    law_noise_is_skipped(receiver.buffer, pair, rest);
    lemma_frames_by_next(all);
    assert(frames_in(all) =~= seq![pair]);
    law_buffer_is_never_cleared(receiver, f);
    assert(pair_reports(seq![pair]) =~= seq![pair_report(pair)]);
    assert(after_frames(rest) =~= rest);
    assert(pending(all) =~= rest);
}

/// The panel shows the pair that the link reports, and counts it.
pub proof fn law_reported_pair_is_shown(panel: PanelState, pair: TwoU32)
    requires
        panel.rx_count < u64::MAX,
    ensures
        pair_report(pair) matches ActionView::Report(report) && panel.received(report) == (
            PanelState {
                latest_a: pair.a,
                latest_b: pair.b,
                rx_count: (panel.rx_count + 1) as u64,
                ..panel
            }
        ),
{
}

/// A scan, a choice of the user, a request and a report all leave the chosen port among those
/// offered.
pub proof fn law_choice_stays_among_offers(
    panel: PanelState,
    scan: Result<Seq<PortInfoView>, Seq<char>>,
    index: nat,
    entry: Result<(u32, Seq<char>), Seq<char>>,
    report: ReportView,
)
    ensures
        PanelState::initial().wf(),
        panel.refreshed(scan).wf(),
        index < panel.ports.len() ==> (PanelState { selected_port: index, ..panel }).wf(),
        panel.wf() ==> panel.opening().0.wf(),
        panel.wf() ==> panel.sending(entry).0.wf(),
        panel.wf() ==> panel.received(report).wf(),
{
}

/// The reports among the actions.
pub open spec fn reports_in(actions: Seq<ActionView>) -> Seq<ReportView>
    decreases actions.len(),
{
    if actions.len() == 0 {
        Seq::empty()
    } else {
        match actions.last() {
            ActionView::Report(report) => reports_in(actions.drop_last()).push(report),
            _ => reports_in(actions.drop_last()),
        }
    }
}

/// Every status that the link reports can be shown by the panel.
pub proof fn law_reports_are_showable(link: LinkState, event: EventView, i: int)
    requires
        0 <= i < link.step(event).1.len(),
    ensures
        link.step(event).1[i] matches ActionView::Report(report) ==> showable(report),
{
    reveal_strlit("Opened ");
    reveal_strlit("Open failed (");
    reveal_strlit("Closed");
    reveal_strlit("Send failed: port not open");
    reveal_strlit("Write failed: ");
    reveal_strlit("Flush failed: ");
    reveal_strlit("Read error: ");
    reveal_strlit("RX buffer cleared (too large)");
    if let ActionView::Report(report) = link.step(event).1[i] {
        if let ReportView::Status(text) = report {
            assert(text.len() >= 4);
            assert(text[0] as u32 <= 0x7F && text[1] as u32 <= 0x7F && text[2] as u32 <= 0x7F
                && text[3] as u32 <= 0x7F);
            lemma_ascii_splits_at_four(text);
        }
    }
}

/// The panel after the reports of pairs: the last pair is shown, and all are counted.
proof fn lemma_pairs_received(panel: PanelState, pairs: Seq<TwoU32>)
    ensures
        ({
            let after = panel.received_all(reports_in(pair_reports(pairs)));
            &&& after.port_opened == panel.port_opened
            &&& panel.rx_count + pairs.len() <= u64::MAX ==> after == (PanelState {
                latest_a: if pairs.len() == 0 {
                    panel.latest_a
                } else {
                    pairs.last().a
                },
                latest_b: if pairs.len() == 0 {
                    panel.latest_b
                } else {
                    pairs.last().b
                },
                rx_count: (panel.rx_count + pairs.len()) as u64,
                ..panel
            })
        }),
    decreases pairs.len(),
{
    let actions = pair_reports(pairs);
    if pairs.len() > 0 {
        lemma_pairs_received(panel, pairs.drop_last());
        assert(actions.drop_last() =~= pair_reports(pairs.drop_last()));
        let reports = reports_in(actions);
        assert(reports.drop_last() =~= reports_in(actions.drop_last()));
    }
}

/// Of the bytes that the link receives, the panel shows the last pair and counts all.
pub proof fn law_panel_counts_frames(panel: PanelState, link: LinkState, bytes: Seq<u8>)
    requires
        bytes.len() > 0,
        panel.rx_count + frames_in(link.buffer + bytes).len() <= u64::MAX,
    ensures
        ({
            let pairs = frames_in(link.buffer + bytes);
            let reports = reports_in(link.step(EventView::Received(bytes)).1);
            panel.received_all(reports) == (PanelState {
                latest_a: if pairs.len() == 0 {
                    panel.latest_a
                } else {
                    pairs.last().a
                },
                latest_b: if pairs.len() == 0 {
                    panel.latest_b
                } else {
                    pairs.last().b
                },
                rx_count: (panel.rx_count + pairs.len()) as u64,
                ..panel
            })
        }),
{
    law_buffer_is_never_cleared(link, bytes);
    lemma_pairs_received(panel, frames_in(link.buffer + bytes));
}

/// Opening failed while no port was open.
pub open spec fn failed_to_open(link: LinkState, event: EventView) -> bool {
    event matches EventView::Opened { error, .. } && error is Some && !link.open
}

/// Where the panel takes the port for open if and only if it is, it does so after the next
/// reports too. The one exception is a port that could not be opened while none was open: its
/// status starts like that of an open port.
pub proof fn law_panel_follows_link(panel: PanelState, link: LinkState, event: EventView)
    requires
        panel.port_opened == link.open,
        !failed_to_open(link, event),
    ensures
        ({
            let (next, actions) = link.step(event);
            panel.received_all(reports_in(actions)).port_opened == next.open
        }),
{
    let (next, actions) = link.step(event);
    reveal_strlit("Open");
    reveal_strlit("Clos");
    reveal_strlit("Opened ");
    reveal_strlit("Open failed (");
    reveal_strlit("Closed");
    reveal_strlit("Send failed: port not open");
    reveal_strlit("Write failed: ");
    reveal_strlit("Flush failed: ");
    reveal_strlit("Read error: ");
    if let EventView::Received(bytes) = event {
        if bytes.len() > 0 {
            law_buffer_is_never_cleared(link, bytes);
            lemma_pairs_received(panel, frames_in(link.buffer + bytes));
        }
    } else {
        assert(actions.len() <= 2);
        reveal_with_fuel(reports_in, 3);
        reveal_with_fuel(PanelState::received_all, 3);
        let reports = reports_in(actions);
        if reports.len() == 1 && reports[0] is Status {
            let text = reports[0]->Status_0;
            assert(text.len() >= 4);
            let start = text.take(4);
            assert(starts_with_four(text, "Open"@) <==> text[0] == 'O') by {
                if text[0] == 'O' {
                    assert(start =~= "Open"@.take(4));
                } else {
                    assert(start[0] != "Open"@.take(4)[0]);
                }
            }
            assert(starts_with_four(text, "Clos"@) <==> text[0] == 'C') by {
                if text[0] == 'C' {
                    assert(start =~= "Clos"@.take(4));
                } else {
                    assert(start[0] != "Clos"@.take(4)[0]);
                }
            }
        }
    }
}

/// The panel after the link has reported on these events, in order.
pub open spec fn panel_after(panel: PanelState, link: LinkState, events: Seq<EventView>) -> PanelState
    decreases events.len(),
{
    if events.len() == 0 {
        panel
    } else {
        let before = link_after(link, events.drop_last());
        panel_after(panel, link, events.drop_last()).received_all(
            reports_in(before.step(events.last()).1),
        )
    }
}

/// From the start on, the panel takes the port for open if and only if it is, as long as no
/// port fails to open while none is open.
pub proof fn law_panel_always_follows_link(panel: PanelState, events: Seq<EventView>)
    requires
        !panel.port_opened,
        forall|i: int|
            0 <= i < events.len() ==> !failed_to_open(
                link_after(LinkState::initial(), events.take(i)),
                #[trigger] events[i],
            ),
    ensures
        panel_after(panel, LinkState::initial(), events).port_opened == link_after(
            LinkState::initial(),
            events,
        ).open,
    decreases events.len(),
{
    if events.len() > 0 {
        let n = events.len() - 1;
        let init = events.drop_last();
        assert(events.take(n) =~= init);
        assert forall|i: int| 0 <= i < init.len() implies !failed_to_open(
            link_after(LinkState::initial(), init.take(i)),
            #[trigger] init[i],
        ) by {
            assert(init.take(i) =~= events.take(i));
            assert(init[i] == events[i]);
        }
        assert(!failed_to_open(link_after(LinkState::initial(), events.take(n)), events[n]));
        law_panel_always_follows_link(panel, init);
        law_panel_follows_link(
            panel_after(panel, LinkState::initial(), init),
            link_after(LinkState::initial(), init),
            events.last(),
        );
    }
}

} // verus!
