//! What a call of the library gives back, by what it is given, whatever that is.
use crate::crc::{
    crc16_ccitt_false, law_checksum_is_remainder, law_generator_adds_nothing, with_generator,
};
use crate::frame::{
    build_frame, frame_of, law_frame_holds_pair, law_frame_holds_payload, payload_of,
    try_extract_frame, TwoU32,
};
use crate::frequency::{
    law_period_is_accurate, law_period_is_in_range, law_range_is_from_15_to_80,
    lemma_range_by_pattern, lemma_scaled_by_one, one, period_ticks, scaled_value,
};
use crate::link::{
    action_views, law_received_frames_are_reported, LinkAction, LinkEvent, SerialLink,
};
use crate::message::{FromSerial, ToSerial};
use crate::panel::{
    all_offered, found_views, known, law_known_port_is_offered,
    law_known_ports_are_offered_in_order, law_sent_period_is_accurate, law_status_is_taken_over,
    law_wrong_frequency_is_refused, offer, offer_all, offered, offered_views, pairs_among,
    report_views, showable, App, DisplayPlan, Frequency, FullPort, PanelState, PortInfo,
    PortInfoView, PortKind,
};
use crate::stream::{
    extract_frames, frame_at, frames_in, law_first_frame_is_found, law_frames_are_found_in_turn,
    law_start_of_a_frame_is_kept, pending,
};
use crate::text::{
    decimal, decimal_of, hex, hex_of, is_numeral, joined, law_decimal_is_worth_its_number,
    law_hex_is_worth_its_number, law_split_goes_by_the_fifth_byte, worth,
};
use vstd::prelude::*;
use vstd::utf8::encode_utf8;

verus! {

/// The checksum of the data followed by two bytes is zero if and only if these are the high byte
/// and the low byte of the checksum of the data.
pub proof fn law_checksum_leaves_no_remainder(
    data: &[u8],
    crc: u16,
    longer: &[u8],
    rest: u16,
    hi: u8,
    lo: u8,
)
    requires
        call_ensures(crc16_ccitt_false, (data,), crc),
        call_ensures(crc16_ccitt_false, (longer,), rest),
        longer@ == data@ + seq![hi, lo],
    ensures
        rest == 0 <==> crc == 0x100 * hi + lo,
{
    law_checksum_is_remainder(data@, hi, lo);
}

/// Data that differ by the generator x^16 + x^12 + x^5 + 1 have the same checksum.
pub proof fn law_checksum_is_by_the_generator(
    data: &[u8],
    crc: u16,
    changed: &[u8],
    other: u16,
    at: int,
    s: u32,
)
    requires
        call_ensures(crc16_ccitt_false, (data,), crc),
        call_ensures(crc16_ccitt_false, (changed,), other),
        0 <= at,
        at + 3 <= data@.len(),
        s < 8,
        changed@ == with_generator(data@, at, s),
    ensures
        crc == other,
{
    law_generator_adds_nothing(data@, at, s);
}

/// Only a pair of numbers has a payload, which holds the first number and then the second, each
/// with its lowest byte first.
pub proof fn law_payload_holds_the_numbers(request: &ToSerial, payload: Option<[u8; 8]>)
    requires
        call_ensures(ToSerial::to_payload, (request,), payload),
    ensures
        match *request {
            ToSerial::RxPair { a, b } => {
                &&& payload is Some
                &&& payload->0[0] + 0x100 * payload->0[1] + 0x1_0000 * payload->0[2] + 0x100_0000
                    * payload->0[3] == a
                &&& payload->0[4] + 0x100 * payload->0[5] + 0x1_0000 * payload->0[6] + 0x100_0000
                    * payload->0[7] == b
            },
            _ => payload is None,
        },
{
    if let ToSerial::RxPair { a, b } = *request {
        let p = payload->0@;
        let f = frame_of(payload_of(TwoU32 { a, b }));
        law_frame_holds_pair(TwoU32 { a, b });
        law_frame_holds_payload(p);
        assert forall|i: int| 0 <= i < 8 implies #[trigger] p[i] == f[i + 2] by {
            assert(f.subrange(2, 10)[i] == f[i + 2]);
        }
        assert(p[0] == f[2] && p[1] == f[3] && p[2] == f[4] && p[3] == f[5]);
        assert(p[4] == f[6] && p[5] == f[7] && p[6] == f[8] && p[7] == f[9]);
    }
}

/// A frame is A5 5A, the payload, and the checksum of these with its low byte first.
pub proof fn law_frame_is_built_around_payload(
    payload: &[u8; 8],
    frame: [u8; 12],
    body: &[u8],
    crc: u16,
)
    requires
        call_ensures(build_frame, (payload,), frame),
        call_ensures(crc16_ccitt_false, (body,), crc),
        body@ == seq![0xA5u8, 0x5Au8] + payload@,
    ensures
        frame@.take(10) == body@,
        frame[10] + 0x100 * frame[11] == crc,
{
    law_frame_holds_payload(payload@);
    let f = frame@;
    assert forall|i: int| 0 <= i < 8 implies #[trigger] payload@[i] == f[i + 2] by {
        assert(f.subrange(2, 10)[i] == f[i + 2]);
    }
    assert(f.take(10) =~= body@) by {
        assert forall|i: int| 2 <= i < 10 implies f[i] == body@[i] by {
            assert(payload@[i - 2] == f[i - 2 + 2]);
        }
    }
}

/// What comes out is the first frame in the bytes, and what stays is what follows it. If nothing
/// comes out, no frame is there, and at most eleven of the last bytes stay.
pub proof fn law_first_frame_is_taken_out(rx: &mut Vec<u8>, pair: Option<TwoU32>)
    requires
        call_ensures(try_extract_frame, (rx,), pair),
    ensures
        ({
            let n = old(rx)@.len() as int;
            let m = final(rx)@.len() as int;
            &&& m <= n
            &&& final(rx)@ == old(rx)@.skip(n - m)
            &&& match pair {
                Some(found) => {
                    &&& frame_at(old(rx)@, n - m - 12, found)
                    &&& forall|k: int, other: TwoU32|
                        k < n - m - 12 ==> !frame_at(old(rx)@, k, other)
                },
                None => {
                    &&& m <= 11
                    &&& n <= 11 ==> m == n
                    &&& forall|k: int, other: TwoU32| !frame_at(old(rx)@, k, other)
                },
            }
        }),
{
    let s = old(rx)@;
    law_first_frame_is_found(s);
    if pair is None {
        law_start_of_a_frame_is_kept(s);
    }
}

/// Taking all frames out is taking out the first, and then all from what stays.
pub proof fn law_all_frames_are_taken_out(
    rx: &mut Vec<u8>,
    pairs: Vec<TwoU32>,
    once: &mut Vec<u8>,
    first: Option<TwoU32>,
    more: &mut Vec<u8>,
    others: Vec<TwoU32>,
)
    requires
        call_ensures(extract_frames, (rx,), pairs),
        call_ensures(try_extract_frame, (once,), first),
        call_ensures(extract_frames, (more,), others),
        old(once)@ == old(rx)@,
        old(more)@ == final(once)@,
    ensures
        match first {
            Some(pair) => pairs@ == seq![pair] + others@ && final(rx)@ == final(more)@,
            None => pairs@.len() == 0 && final(rx)@ == final(once)@,
        },
{
    law_frames_are_found_in_turn(old(rx)@);
}

/// A frequency from 15 to 80 kHz has a period: 100,000 divided by the kilohertz, to within 0.51.
/// No other number has one; what is no number has the period zero.
pub proof fn law_period_is_that_of_the_frequency(bits: u32, period: Option<u32>)
    requires
        call_ensures(period_ticks, (bits,), period),
    ensures
        bits % 0x8000_0000 < 0x7F80_0000 ==> (period is Some <==> 15 * one() <= scaled_value(bits)
            <= 80 * one()),
        bits % 0x8000_0000 < 0x7F80_0000 && period is Some ==> {
            &&& 1250 <= period->0 <= 6667
            &&& 100 * (period->0 * scaled_value(bits)) <= 100 * (100_000 * one()) + 51
                * scaled_value(bits)
            &&& 100 * (100_000 * one()) <= 100 * (period->0 * scaled_value(bits)) + 51
                * scaled_value(bits)
        },
        bits % 0x8000_0000 == 0x7F80_0000 ==> period is None,
        bits % 0x8000_0000 > 0x7F80_0000 ==> period == Some(0u32),
{
    law_range_is_from_15_to_80(bits);
    lemma_range_by_pattern(bits);
    lemma_scaled_by_one(100_000);
    if bits % 0x8000_0000 < 0x7F80_0000 && period is Some {
        law_period_is_accurate(bits);
        law_period_is_in_range(bits);
    }
}

/// The numerals are worth the numbers.
pub proof fn law_numerals_are_worth_the_numbers(n: u64, text: String, m: u32, other: String)
    requires
        call_ensures(decimal, (n,), text),
        call_ensures(hex, (m,), other),
    ensures
        is_numeral(text@, 10),
        worth(text@, 10) == n,
        is_numeral(other@, 16),
        worth(other@, 16) == m,
{
    law_decimal_is_worth_its_number(n as nat);
    law_hex_is_worth_its_number(m as nat);
}

/// A joined text is the first text and then the second.
pub proof fn law_joined_text_holds_both(first: &str, second: &str, text: String)
    requires
        call_ensures(joined, (first, second), text),
    ensures
        text@.len() == first@.len() + second@.len(),
        text@.take(first@.len() as int) == first@,
        text@.skip(first@.len() as int) == second@,
{
    assert(text@.take(first@.len() as int) =~= first@);
    assert(text@.skip(first@.len() as int) =~= second@);
}

/// A port is offered if and only if it is known what it is connected by, under its own name, and
/// shown with what is known of it.
pub proof fn law_offer_names_the_port(port: PortInfo, full: Option<FullPort>)
    requires
        call_ensures(offer, (port,), full),
    ensures
        full is None <==> port.kind is Unknown,
        full is Some ==> full->0.name@ == port.name@ && full->0.full_name@ == match port.kind {
            PortKind::Usb { manufacturer: Some(maker), product: Some(product) } => port.name@
                + " "@ + maker@ + " "@ + product@,
            PortKind::Usb { manufacturer: Some(maker), product: None } => port.name@ + " "@
                + maker@ + " "@ + "No product"@,
            PortKind::Usb { manufacturer: None, product: Some(product) } => port.name@ + " "@
                + "No manufacturer"@ + " "@ + product@,
            PortKind::Usb { manufacturer: None, product: None } => port.name@ + " "@
                + "No manufacturer"@ + " "@ + "No product"@,
            PortKind::Pci => port.name@ + " (PCI)"@,
            _ => port.name@ + " (Bluetooth)"@,
        },
{
    law_known_port_is_offered(port@);
}

/// How many of the ports found are known.
pub open spec fn known_among(ports: Seq<PortInfo>) -> nat
    decreases ports.len(),
{
    if ports.len() == 0 {
        0
    } else {
        known_among(ports.drop_last()) + if ports.last().kind is Unknown {
            0nat
        } else {
            1nat
        }
    }
}

/// The known ports are as many as their views.
proof fn lemma_known_among(ports: Seq<PortInfo>)
    ensures
        known(found_views(ports)).len() == known_among(ports),
        known(found_views(ports)) == all_known(ports),
    decreases ports.len(),
{
    reveal(Seq::filter);
    let views = found_views(ports);
    if ports.len() > 0 {
        lemma_known_among(ports.drop_last());
        assert(views.drop_last() =~= found_views(ports.drop_last()));
        assert(views.last() == ports.last()@);
    }
}

/// The ports of which it is known what they are connected by, in order.
pub open spec fn all_known(ports: Seq<PortInfo>) -> Seq<PortInfoView>
    decreases ports.len(),
{
    if ports.len() == 0 {
        Seq::empty()
    } else if ports.last().kind is Unknown {
        all_known(ports.drop_last())
    } else {
        all_known(ports.drop_last()).push(ports.last()@)
    }
}

/// The known ports are offered, in order, each in its own way.
pub proof fn law_all_known_ports_are_offered(found: Vec<PortInfo>, offers: Vec<FullPort>)
    requires
        call_ensures(offer_all, (found,), offers),
    ensures
        offers@.len() == known_among(found@),
        forall|i: int|
            0 <= i < offers@.len() ==> (#[trigger] offers@[i]).name@ == all_known(found@)[i].name
                && offered(all_known(found@)[i]) == Some(offers@[i]@),
{
    let views = offered_views(offers@);
    assert(views.len() == offers@.len());
    lemma_known_among(found@);
    law_known_ports_are_offered_in_order(found_views(found@));
    assert forall|i: int| 0 <= i < offers@.len() implies (#[trigger] offers@[i]).name@
        == all_known(found@)[i].name && offered(all_known(found@)[i]) == Some(offers@[i]@) by {
        assert(views[i] == offers@[i]@);
        assert(all_offered(found_views(found@))[i].name == all_known(found@)[i].name);
    }
}

/// After a scan the known ports are on offer, in order and by their names, and their number is
/// told; the choice stays if it can, else it goes to the first. After a failed one there are no
/// ports, and the error is told. The rest of the panel stays as it was.
pub proof fn law_refresh_offers_the_known_ports(
    app: &mut App,
    scan: Result<Vec<PortInfo>, String>,
    ports: &Vec<FullPort>,
)
    requires
        call_ensures(App::refresh_ports, (app, scan), ()),
        call_ensures(App::ports, (&*final(app),), ports),
    ensures
        match scan {
            Ok(found) => {
                let n = known_among(found@);
                &&& ports@.len() == n
                &&& forall|i: int|
                    0 <= i < n ==> (#[trigger] ports@[i]).name@ == all_known(found@)[i].name
                        && offered(all_known(found@)[i]) == Some(ports@[i]@)
                &&& final(app)@.status == "Found "@ + decimal_of(n) + " ports"@
                &&& final(app)@.selected_port == if old(app)@.selected_port < n {
                    old(app)@.selected_port
                } else {
                    0
                }
            },
            Err(error) => {
                &&& ports@.len() == 0
                &&& final(app)@.status == "Port scan error: "@ + error@
                &&& final(app)@.selected_port == old(app)@.selected_port
            },
        },
        final(app)@ == (PanelState {
            ports: final(app)@.ports,
            status: final(app)@.status,
            selected_port: final(app)@.selected_port,
            ..old(app)@
        }),
{
    let views = offered_views(ports@);
    assert(views.len() == ports@.len());
    if let Ok(found) = scan {
        lemma_known_among(found@);
        law_known_ports_are_offered_in_order(found_views(found@));
        assert forall|i: int| 0 <= i < ports@.len() implies (#[trigger] ports@[i]).name@
            == all_known(found@)[i].name && offered(all_known(found@)[i]) == Some(ports@[i]@) by {
            assert(views[i] == ports@[i]@);
            assert(all_offered(found_views(found@))[i].name == all_known(found@)[i].name);
        }
    }
}

/// A new panel is one after a scan: no port open, the first port chosen, 115200 baud, nothing
/// entered and nothing received.
pub proof fn law_new_panel_is_at_its_start(scan: Result<Vec<PortInfo>, String>, app: App)
    requires
        call_ensures(App::new, (scan,), app),
    ensures
        !app@.fonts_initialized,
        app@.selected_port == 0,
        app@.baud == 115_200,
        app@.number_text.len() == 0,
        !app@.port_opened,
        app@.latest_a == 0,
        app@.latest_b == 0,
        app@.rx_count == 0,
        match scan {
            Ok(found) => app@.ports.len() == known_among(found@) && app@.status == "Found "@
                + decimal_of(known_among(found@)) + " ports"@,
            Err(error) => app@.ports.len() == 0 && app@.status == "Port scan error: "@ + error@,
        },
{
    if let Ok(found) = scan {
        lemma_known_among(found@);
        law_known_ports_are_offered_in_order(found_views(found@));
    }
}

/// The port that was chosen last is the one that is shown as chosen, and opening asks for it by
/// its name, at the speed that was set last.
pub proof fn law_open_asks_for_the_choice(
    app: &mut App,
    index: usize,
    faster: &mut App,
    baud: u32,
    opening: &mut App,
    request: Option<ToSerial>,
    name: Option<&String>,
    chosen: usize,
)
    requires
        index < old(app)@.ports.len(),
        call_ensures(App::select_port, (app, index), ()),
        *old(faster) == *final(app),
        call_ensures(App::set_baud, (faster, baud), ()),
        *old(opening) == *final(faster),
        call_ensures(App::open_selected, (opening,), request),
        call_ensures(App::selected_name, (&*final(opening),), name),
        call_ensures(App::selected_port, (&*final(opening),), chosen),
    ensures
        chosen == index,
        request matches Some(ToSerial::Open { port, baud: speed }) && port@
            == old(app)@.ports[index as int].name && speed == baud,
        name is Some,
        name->0@ == old(app)@.ports[index as int].full_name,
        final(opening)@ == (PanelState { selected_port: index as nat, baud, ..old(app)@ }),
{
}

/// Without ports there is nothing to open: nothing is asked for, and the status says why.
pub proof fn law_without_ports_nothing_is_opened(
    app: &mut App,
    request: Option<ToSerial>,
    name: Option<&String>,
)
    requires
        old(app)@.ports.len() == 0,
        call_ensures(App::open_selected, (app,), request),
        call_ensures(App::selected_name, (&*final(app),), name),
    ensures
        request is None,
        name is None,
        final(app)@ == (PanelState { status: "No ports. Click Refresh."@, ..old(app)@ }),
{
}

/// To close the port, just that is asked for.
pub proof fn law_close_asks_to_close(app: &mut App, request: ToSerial)
    requires
        call_ensures(App::close_port, (app,), request),
    ensures
        request is Close,
        final(app)@ == old(app)@,
{
}

/// A frequency from 15 to 80 kHz is sent as its period, to within 0.51 ticks of a 100 MHz clock,
/// with zero as the second number. Nothing is sent for any other number or text; the status says
/// why. What parses as no-number is sent as zero.
pub proof fn law_send_asks_for_the_period(
    app: &mut App,
    entry: Result<Frequency, String>,
    request: Option<ToSerial>,
    period: Option<u32>,
)
    requires
        call_ensures(App::send_number, (app, entry), request),
        entry is Ok ==> call_ensures(period_ticks, (entry->Ok_0.bits,), period),
    ensures
        match entry {
            Ok(frequency) => {
                let bits = frequency.bits;
                let v = scaled_value(bits);
                if bits % 0x8000_0000 > 0x7F80_0000 {
                    &&& final(app)@ == old(app)@
                    &&& request == Some(ToSerial::RxPair { a: 0, b: 0 })
                } else if bits % 0x8000_0000 < 0x7F80_0000 && 15 * one() <= v <= 80 * one() {
                    &&& final(app)@ == old(app)@
                    &&& request matches Some(ToSerial::RxPair { a, b })
                    &&& b == 0
                    &&& period == Some(a)
                    &&& 1250 <= a <= 6667
                    &&& 100 * (a * v) <= 100 * (100_000 * one()) + 51 * v
                    &&& 100 * (100_000 * one()) <= 100 * (a * v) + 51 * v
                } else {
                    &&& request is None
                    &&& final(app)@ == (PanelState {
                        status: "Invalid value, must be with-in 15.0 to 80.0 KHz: "@
                            + frequency.shown@,
                        ..old(app)@
                    })
                }
            },
            Err(error) => {
                &&& request is None
                &&& final(app)@ == (PanelState {
                    status: "Invalid value: "@ + error@,
                    ..old(app)@
                })
            },
        },
{
    if let Ok(frequency) = entry {
        let bits = frequency.bits;
        let v = scaled_value(bits);
        law_wrong_frequency_is_refused(old(app)@, bits, frequency.shown@, Seq::empty());
        law_period_is_that_of_the_frequency(bits, period);
        if bits % 0x8000_0000 < 0x7F80_0000 && 15 * one() <= v <= 80 * one() {
            law_sent_period_is_accurate(old(app)@, bits, frequency.shown@);
        }
    }
}

/// A status is shown as it is, and one that starts with "Open" or with "Clos" tells whether the
/// port is open; two numbers are shown and counted. Nothing else changes.
pub proof fn law_report_is_taken_over(app: &mut App, report: FromSerial)
    requires
        report is RxPair ==> old(app)@.rx_count < u64::MAX,
        call_ensures(App::receive, (app, report), ()),
    ensures
        match report {
            FromSerial::Status(text) => final(app)@ == (PanelState {
                status: text@,
                port_opened: if text@ == "Open"@ + text@.skip(4) {
                    true
                } else if text@ == "Clos"@ + text@.skip(4) {
                    false
                } else {
                    old(app)@.port_opened
                },
                ..old(app)@
            }),
            FromSerial::RxPair { a, b } => final(app)@ == (PanelState {
                latest_a: a,
                latest_b: b,
                rx_count: final(app)@.rx_count,
                ..old(app)@
            }) && final(app)@.rx_count == old(app)@.rx_count + 1,
        },
{
    if let FromSerial::Status(text) = report {
        law_status_is_taken_over(old(app)@, text@, text@.skip(4));
    }
}

/// How many of the reports are pairs of numbers.
pub open spec fn pairs_reported(reports: Seq<FromSerial>) -> nat
    decreases reports.len(),
{
    if reports.len() == 0 {
        0
    } else if reports.last() is RxPair {
        pairs_reported(reports.drop_last()) + 1
    } else {
        pairs_reported(reports.drop_last())
    }
}

/// The pairs are as many as those among the views.
proof fn lemma_pairs_reported(reports: Seq<FromSerial>)
    ensures
        pairs_among(report_views(reports)) == pairs_reported(reports),
    decreases reports.len(),
{
    if reports.len() > 0 {
        lemma_pairs_reported(reports.drop_last());
        assert(report_views(reports).drop_last() =~= report_views(reports.drop_last()));
        assert(report_views(reports).last() == reports.last()@);
    }
}

/// Reports can be taken over if and only if in no status a character spans the fourth byte and
/// the fifth, and there is room to count the pairs among them.
pub proof fn law_reports_are_accepted(app: &App, reports: &Vec<FromSerial>, ok: bool)
    requires
        call_ensures(App::accepts, (app, reports), ok),
    ensures
        ok <==> {
            &&& app@.rx_count + pairs_reported(reports@) <= u64::MAX
            &&& forall|i: int|
                0 <= i < reports@.len() ==> (#[trigger] reports@[i] matches FromSerial::Status(text)
                    ==> encode_utf8(text@).len() <= 4 || !(0x80 <= encode_utf8(text@)[4] <= 0xBF))
        },
{
    let views = report_views(reports@);
    lemma_pairs_reported(reports@);
    assert forall|i: int| 0 <= i < reports@.len() implies (showable(#[trigger] views[i]) <==> (
    reports@[i] matches FromSerial::Status(text) ==> encode_utf8(text@).len() <= 4 || !(0x80
        <= encode_utf8(text@)[4] <= 0xBF))) by {
        assert(views[i] == reports@[i]@);
        if let FromSerial::Status(text) = reports@[i] {
            law_split_goes_by_the_fifth_byte(text@);
        }
    }
    if ok {
        assert forall|i: int| 0 <= i < reports@.len() implies (
        #[trigger] reports@[i] matches FromSerial::Status(text) ==> encode_utf8(text@).len() <= 4
            || !(0x80 <= encode_utf8(text@)[4] <= 0xBF)) by {
            assert(showable(views[i]));
        }
    } else if app@.rx_count + pairs_reported(reports@) <= u64::MAX {
        let i = choose|i: int| 0 <= i < views.len() && !showable(#[trigger] views[i]);
        assert(!showable(views[i]));
        assert(reports@[i] is Status);
    }
}

/// Reports that are accepted may be taken over, and any port that is offered may be chosen.
pub proof fn law_accepted_reports_may_be_taken_over(
    app: &mut App,
    reports: Vec<FromSerial>,
    index: usize,
)
    requires
        call_ensures(App::accepts, (&*old(app), &reports), true),
    ensures
        call_requires(App::poll_incoming, (app, reports)),
        index < old(app)@.ports.len() ==> call_requires(App::select_port, (app, index)),
{
}

/// Reports that come in together are taken over like one report after the other.
pub proof fn law_reports_are_taken_over_one_by_one(
    app: &mut App,
    reports: Vec<FromSerial>,
    before: &mut App,
    earlier: Vec<FromSerial>,
    then: &mut App,
    last: FromSerial,
)
    requires
        call_ensures(App::poll_incoming, (app, reports), ()),
        call_ensures(App::poll_incoming, (before, earlier), ()),
        call_ensures(App::receive, (then, last), ()),
        reports@ == earlier@.push(last),
        *old(before) == *old(app),
        *old(then) == *final(before),
    ensures
        final(app)@ == final(then)@,
{
    let all = report_views(reports@);
    assert(all.drop_last() =~= report_views(earlier@));
    assert(all.last() == last@);
}

/// No reports change nothing.
pub proof fn law_no_reports_change_nothing(app: &mut App, reports: Vec<FromSerial>)
    requires
        call_ensures(App::poll_incoming, (app, reports), ()),
        reports@.len() == 0,
    ensures
        final(app)@ == old(app)@,
{
}

/// The fonts are to be set before the first drawing and never again, and reports are to be looked
/// for once ten milliseconds have passed. Nothing else changes.
pub proof fn law_display_begins_with_fonts_once(
    app: &mut App,
    since_poll_ms: u128,
    plan: DisplayPlan,
    later: &mut App,
    later_ms: u128,
    second: DisplayPlan,
)
    requires
        call_ensures(App::begin_display, (app, since_poll_ms), plan),
        call_ensures(App::begin_display, (later, later_ms), second),
        *old(later) == *final(app),
    ensures
        plan.set_fonts <==> !old(app)@.fonts_initialized,
        !second.set_fonts,
        plan.poll <==> since_poll_ms >= 10,
        final(app)@ == (PanelState { fonts_initialized: true, ..old(app)@ }),
{
}

/// The port can be opened if and only if it does not count as open, and closed if and only if it
/// does. A frequency is sent only then, on a click, or when Enter ends the entry.
pub proof fn law_buttons_follow_the_port(
    app: &App,
    opens: bool,
    closes: bool,
    clicked: bool,
    lost_focus: bool,
    enter: bool,
    send: bool,
)
    requires
        call_ensures(App::open_enabled, (app,), opens),
        call_ensures(App::close_enabled, (app,), closes),
        call_ensures(App::send_requested, (app, clicked, lost_focus, enter), send),
    ensures
        opens != closes,
        closes == app@.port_opened,
        send ==> closes && (clicked || enter),
        closes && clicked ==> send,
        closes && lost_focus && enter ==> send,
        !clicked && !lost_focus ==> !send,
{
}

/// What the user sets is what is shown and used from then on; nothing else changes.
pub proof fn law_settings_are_kept(
    app: &mut App,
    text: String,
    shown: &String,
    then: &mut App,
    baud: u32,
    speed: u32,
)
    requires
        call_ensures(App::set_number_text, (app, text), ()),
        *old(then) == *final(app),
        call_ensures(App::number_text, (&*final(app),), shown),
        call_ensures(App::set_baud, (then, baud), ()),
        call_ensures(App::baud, (&*final(then),), speed),
    ensures
        shown@ == text@,
        speed == baud,
        final(then)@ == (PanelState { number_text: text@, baud, ..old(app)@ }),
{
}

/// The lines show the status as it is, the count and the first number in decimal, and the second
/// number in hexadecimal, each behind its label.
pub proof fn law_lines_show_what_is_held(
    app: &App,
    status: String,
    count: String,
    period: String,
    value_b: String,
)
    requires
        call_ensures(App::status_line, (app,), status),
        call_ensures(App::rx_count_line, (app,), count),
        call_ensures(App::period_line, (app,), period),
        call_ensures(App::value_b_line, (app,), value_b),
    ensures
        status@ == "Status: "@ + app@.status,
        count@ == "RX count: "@ + count@.skip(10),
        is_numeral(count@.skip(10), 10),
        worth(count@.skip(10), 10) == app@.rx_count,
        period@ == "Period value: "@ + period@.skip(14),
        is_numeral(period@.skip(14), 10),
        worth(period@.skip(14), 10) == app@.latest_a,
        value_b@ == "Value B: 0x"@ + value_b@.skip(11),
        is_numeral(value_b@.skip(11), 16),
        worth(value_b@.skip(11), 16) == app@.latest_b,
{
    reveal_strlit("RX count: ");
    reveal_strlit("Period value: ");
    reveal_strlit("Value B: 0x");
    law_decimal_is_worth_its_number(app@.rx_count as nat);
    law_decimal_is_worth_its_number(app@.latest_a as nat);
    law_hex_is_worth_its_number(app@.latest_b as nat);
    assert(count@.skip(10) =~= decimal_of(app@.rx_count as nat));
    assert(period@.skip(14) =~= decimal_of(app@.latest_a as nat));
    assert(value_b@.skip(11) =~= hex_of(app@.latest_b as nat));
}

/// A new link has no port open and has received nothing.
pub proof fn law_new_link_is_closed(link: SerialLink)
    requires
        call_ensures(SerialLink::new, (), link),
    ensures
        !link@.open,
        link@.buffer.len() == 0,
{
}

/// The action is to report this status.
pub open spec fn reports_status(action: LinkAction, text: Seq<char>) -> bool {
    action matches LinkAction::Report(FromSerial::Status(s)) && s@ == text
}

/// What the link does about each event, and that it opens and closes, and keeps bytes, on no
/// other.
pub proof fn law_link_does_what_the_event_asks(
    link: &mut SerialLink,
    event: LinkEvent,
    actions: Vec<LinkAction>,
)
    requires
        call_ensures(SerialLink::step, (link, event), actions),
        !(event is Received),
    ensures
        final(link)@.buffer == old(link)@.buffer,
        final(link)@.open == match event {
            LinkEvent::Opened { error: None, .. } => true,
            LinkEvent::Request(ToSerial::Close) => false,
            _ => old(link)@.open,
        },
        match event {
            LinkEvent::Request(ToSerial::Open { port, baud }) => actions@.len() == 1 && (
            actions@[0] matches LinkAction::OpenPort { port: name, baud: speed, timeout_ms }
                && name@ == port@ && speed == baud && timeout_ms == 20),
            LinkEvent::Request(ToSerial::Close) => actions@.len() == 2 && actions@[0] is ClosePort
                && reports_status(actions@[1], "Closed"@),
            LinkEvent::Request(ToSerial::RxPair { a, b }) => actions@.len() == 1 && if old(
                link,
            )@.open {
                actions@[0] matches LinkAction::Write(bytes) && bytes@ == frame_of(
                    payload_of(TwoU32 { a, b }),
                )
            } else {
                reports_status(actions@[0], "Send failed: port not open"@)
            },
            LinkEvent::Opened { port, baud, error: None } => actions@.len() == 1 && reports_status(
                actions@[0],
                "Opened "@ + port@ + " @ "@ + decimal_of(baud as nat),
            ),
            LinkEvent::Opened { port, baud: _, error: Some(error) } => actions@.len() == 1
                && reports_status(actions@[0], "Open failed ("@ + port@ + "): "@ + error@),
            LinkEvent::Written { error: None } => actions@.len() == 1 && actions@[0] is Flush,
            LinkEvent::Written { error: Some(error) } => actions@.len() == 1 && reports_status(
                actions@[0],
                "Write failed: "@ + error@,
            ),
            LinkEvent::Flushed { error: None } => actions@.len() == 0,
            LinkEvent::Flushed { error: Some(error) } => actions@.len() == 1 && reports_status(
                actions@[0],
                "Flush failed: "@ + error@,
            ),
            LinkEvent::TimedOut => actions@.len() == 0,
            LinkEvent::ReadFailed(error) => actions@.len() == 1 && reports_status(
                actions@[0],
                "Read error: "@ + error@,
            ),
            _ => {
                &&& actions@.len() == 2
                &&& if old(link)@.open {
                    actions@[0] matches LinkAction::Read { size } && size == 256
                } else {
                    actions@[0] matches LinkAction::Rest(ms) && ms == 20
                }
                &&& actions@[1] matches LinkAction::Rest(ms) && ms == 1
            },
        },
{
    let views = action_views(actions@);
    assert(views.len() == actions@.len());
    if actions@.len() > 0 {
        assert(views[0] == actions@[0]@);
    }
    if actions@.len() > 1 {
        assert(views[1] == actions@[1]@);
    }
}

/// Of received bytes, put behind those kept before, each frame is reported with its numbers, in
/// order, and nothing else is done. The link keeps what may be the start of another frame, and
/// whether the port is open.
pub proof fn law_link_reports_each_frame(
    link: &mut SerialLink,
    bytes: Vec<u8>,
    actions: Vec<LinkAction>,
)
    requires
        call_ensures(SerialLink::step, (link, LinkEvent::Received(bytes)), actions),
    ensures
        final(link)@.open == old(link)@.open,
        bytes@.len() == 0 ==> final(link)@.buffer == old(link)@.buffer && actions@.len() == 0,
        bytes@.len() > 0 ==> {
            let all = old(link)@.buffer + bytes@;
            &&& final(link)@.buffer == pending(all)
            &&& actions@.len() == frames_in(all).len()
            &&& forall|i: int|
                0 <= i < actions@.len() ==> (#[trigger] actions@[i] matches LinkAction::Report(
                    FromSerial::RxPair { a, b },
                ) && a == frames_in(all)[i].a && b == frames_in(all)[i].b)
        },
{
    let views = action_views(actions@);
    assert(views.len() == actions@.len());
    if bytes@.len() > 0 {
        law_received_frames_are_reported(old(link)@, bytes@);
        assert forall|i: int| 0 <= i < actions@.len() implies (
        #[trigger] actions@[i] matches LinkAction::Report(FromSerial::RxPair { a, b }) && a
            == frames_in(old(link)@.buffer + bytes@)[i].a && b == frames_in(
            old(link)@.buffer + bytes@,
        )[i].b) by {
            assert(views[i] == actions@[i]@);
        }
    }
}

} // verus!
