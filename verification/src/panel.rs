//! The panel: what it shows, and what it asks of the link.
use crate::frequency::{
    law_period_is_accurate, law_period_is_in_range, law_range_is_from_15_to_80, lemma_scaled_by_one,
    one, period_of, period_ticks, scaled_value, too_high, too_low,
};
use crate::message::{FromSerial, ReportView, RequestView, ToSerial};
use crate::text::{
    can_split_at_four, decimal, decimal_of, has_prefix_of_four, hex, hex_of, joined,
    law_prefix_is_in_front, splits_at_four, starts_with_four,
};
use vstd::prelude::*;
use vstd::string::*;

verus! {

/// The speed that the panel starts with.
pub const DEFAULT_BAUD: u32 = 115_200;

/// The lowest speed that the panel offers.
pub const MIN_BAUD: u32 = 1200;

/// The highest speed that the panel offers.
pub const MAX_BAUD: u32 = 2_000_000;

/// How often the panel looks for reports of the link, in milliseconds.
pub const POLL_INTERVAL_MS: u128 = 10;

/// What a port is connected by.
#[derive(Debug)]
pub enum PortKind {
    Usb { manufacturer: Option<String>, product: Option<String> },
    Pci,
    Bluetooth,
    Unknown,
}

/// A port that a scan found.
#[derive(Debug)]
pub struct PortInfo {
    pub name: String,
    pub kind: PortKind,
}

/// A port that the panel offers.
#[derive(Debug)]
pub struct FullPort {
    /// The name by which it is opened.
    pub name: String,
    /// The name that is shown.
    pub full_name: String,
}

/// A frequency that the user entered.
#[derive(Debug)]
pub struct Frequency {
    /// The number of kilohertz in single precision, by its bit pattern.
    pub bits: u32,
    /// The number, written out.
    pub shown: String,
}

/// What is to be done before the display is drawn.
#[derive(Debug, Clone, Copy, PartialEq, Eq, Structural)]
pub struct DisplayPlan {
    /// Set the fonts.
    pub set_fonts: bool,
    /// Look for reports of the link.
    pub poll: bool,
}

/// A port that a scan found, as the contracts speak of it.
pub struct PortInfoView {
    pub name: Seq<char>,
    pub kind: PortKindView,
}

/// What a port is connected by, as the contracts speak of it.
pub enum PortKindView {
    Usb { manufacturer: Option<Seq<char>>, product: Option<Seq<char>> },
    Pci,
    Bluetooth,
    Unknown,
}

/// A port that the panel offers, as the contracts speak of it.
pub struct FullPortView {
    pub name: Seq<char>,
    pub full_name: Seq<char>,
}

/// A text, if there is one.
pub open spec fn text_view(text: Option<String>) -> Option<Seq<char>> {
    match text {
        Some(s) => Some(s@),
        None => None,
    }
}

impl View for PortKind {
    type V = PortKindView;

    open spec fn view(&self) -> PortKindView {
        match *self {
            PortKind::Usb { manufacturer, product } => PortKindView::Usb {
                manufacturer: text_view(manufacturer),
                product: text_view(product),
            },
            PortKind::Pci => PortKindView::Pci,
            PortKind::Bluetooth => PortKindView::Bluetooth,
            PortKind::Unknown => PortKindView::Unknown,
        }
    }
}

impl View for PortInfo {
    type V = PortInfoView;

    open spec fn view(&self) -> PortInfoView {
        PortInfoView { name: self.name@, kind: self.kind@ }
    }
}

impl View for FullPort {
    type V = FullPortView;

    open spec fn view(&self) -> FullPortView {
        FullPortView { name: self.name@, full_name: self.full_name@ }
    }
}

/// The text, or else the other one.
pub open spec fn text_or(text: Option<Seq<char>>, other: Seq<char>) -> Seq<char> {
    match text {
        Some(s) => s,
        None => other,
    }
}

/// How a port is offered: with what is known of it. A port of which it is not known what it is
/// connected by is not offered.
pub open spec fn offered(port: PortInfoView) -> Option<FullPortView> {
    match port.kind {
        PortKindView::Usb { manufacturer, product } => Some(
            FullPortView {
                name: port.name,
                full_name: port.name + " "@ + text_or(manufacturer, "No manufacturer"@) + " "@
                    + text_or(product, "No product"@),
            },
        ),
        PortKindView::Pci => Some(
            FullPortView { name: port.name, full_name: port.name + " (PCI)"@ },
        ),
        PortKindView::Bluetooth => Some(
            FullPortView { name: port.name, full_name: port.name + " (Bluetooth)"@ },
        ),
        PortKindView::Unknown => None,
    }
}

/// The ports that are offered of those found, in order.
pub open spec fn all_offered(ports: Seq<PortInfoView>) -> Seq<FullPortView>
    decreases ports.len(),
{
    if ports.len() == 0 {
        Seq::empty()
    } else {
        match offered(ports.last()) {
            Some(port) => all_offered(ports.drop_last()).push(port),
            None => all_offered(ports.drop_last()),
        }
    }
}

/// The ports found, as the contracts speak of them.
pub open spec fn found_views(ports: Seq<PortInfo>) -> Seq<PortInfoView> {
    ports.map_values(|port: PortInfo| port@)
}

/// The ports offered, as the contracts speak of them.
pub open spec fn offered_views(ports: Seq<FullPort>) -> Seq<FullPortView> {
    ports.map_values(|port: FullPort| port@)
}

/// The outcome of a scan, as the contracts speak of it.
pub open spec fn scan_view(scan: Result<Vec<PortInfo>, String>) -> Result<
    Seq<PortInfoView>,
    Seq<char>,
> {
    match scan {
        Ok(ports) => Ok(found_views(ports@)),
        Err(error) => Err(error@),
    }
}

/// The text, or else the other one.
fn or_text(text: Option<String>, other: &str) -> (s: String)
    ensures
        s@ == text_or(text_view(text), other@),
{
    match text {
        Some(s) => s,
        None => other.to_owned(),
    }
}

/// How a port is offered, if it is.
pub fn offer(port: PortInfo) -> (full: Option<FullPort>)
    ensures
        match offered(port@) {
            Some(view) => full is Some && full->0@ == view,
            None => full is None,
        },
{
    let PortInfo { name, kind } = port;
    match kind {
        PortKind::Usb { manufacturer, product } => {
            let mut full_name = joined(name.as_str(), " ");
            full_name.append(or_text(manufacturer, "No manufacturer").as_str());
            full_name.append(" ");
            full_name.append(or_text(product, "No product").as_str());
            Some(FullPort { name, full_name })
        },
        PortKind::Pci => {
            let full_name = joined(name.as_str(), " (PCI)");
            Some(FullPort { name, full_name })
        },
        PortKind::Bluetooth => {
            let full_name = joined(name.as_str(), " (Bluetooth)");
            Some(FullPort { name, full_name })
        },
        PortKind::Unknown => None,
    }
}

/// The ports that are offered of those found, in order.
pub fn offer_all(ports: Vec<PortInfo>) -> (offers: Vec<FullPort>)
    ensures
        offered_views(offers@) == all_offered(found_views(ports@)),
{
    let mut offers: Vec<FullPort> = Vec::new();
    let ghost found = found_views(ports@);
    assert(found.take(0) =~= Seq::<PortInfoView>::empty());
    assert(offered_views(offers@) =~= all_offered(found.take(0)));
    for port in it: ports
        invariant
            it.seq() == ports@,
            found == found_views(ports@),
            offered_views(offers@) == all_offered(found.take(it.index() as int)),
    {
        let ghost before = offers@;
        let ghost i = it.index() as int;
        proof {
            assert(found.take(i + 1).drop_last() =~= found.take(i));
            assert(found.take(i + 1).last() == port@);
        }
        if let Some(full) = offer(port) {
            offers.push(full);
            assert(offered_views(offers@) =~= offered_views(before).push(full@));
        }
    }
    assert(found.take(found.len() as int) =~= found);
    offers
}

/// A frequency that the user entered, or why the text is none, as the contracts speak of it.
pub open spec fn entry_view(entry: Result<Frequency, String>) -> Result<
    (u32, Seq<char>),
    Seq<char>,
> {
    match entry {
        Ok(frequency) => Ok((frequency.bits, frequency.shown@)),
        Err(error) => Err(error@),
    }
}

/// A request, if there is one.
pub open spec fn request_view(request: Option<ToSerial>) -> Option<RequestView> {
    match request {
        Some(r) => Some(r@),
        None => None,
    }
}

/// The reports, as the contracts speak of them.
pub open spec fn report_views(reports: Seq<FromSerial>) -> Seq<ReportView> {
    reports.map_values(|report: FromSerial| report@)
}

/// How many of the reports are pairs of numbers.
pub open spec fn pairs_among(reports: Seq<ReportView>) -> nat
    decreases reports.len(),
{
    if reports.len() == 0 {
        0
    } else {
        pairs_among(reports.drop_last()) + if reports.last() is RxPair {
            1nat
        } else {
            0nat
        }
    }
}

/// The report can be shown: the start of a status can be told apart.
pub open spec fn showable(report: ReportView) -> bool {
    report matches ReportView::Status(text) ==> splits_at_four(text)
}

/// The panel can take over these reports: each can be shown, and the count has room for them.
pub open spec fn acceptable(panel: PanelState, reports: Seq<ReportView>) -> bool {
    &&& forall|i: int| 0 <= i < reports.len() ==> showable(#[trigger] reports[i])
    &&& panel.rx_count + pairs_among(reports) <= u64::MAX
}

/// What the panel holds.
#[verifier::ext_equal]
pub struct PanelState {
    /// The fonts are set.
    pub fonts_initialized: bool,
    /// The ports that are offered.
    pub ports: Seq<FullPortView>,
    /// Which of them is chosen.
    pub selected_port: nat,
    /// The speed to open it at.
    pub baud: u32,
    /// The frequency that the user is entering.
    pub number_text: Seq<char>,
    /// The status.
    pub status: Seq<char>,
    /// The port counts as open.
    pub port_opened: bool,
    /// The numbers last received.
    pub latest_a: u32,
    pub latest_b: u32,
    /// How many pairs of numbers were received.
    pub rx_count: u64,
}

impl PanelState {
    /// The panel before the first scan.
    pub open spec fn initial() -> PanelState {
        PanelState {
            fonts_initialized: false,
            ports: Seq::empty(),
            selected_port: 0,
            baud: DEFAULT_BAUD,
            number_text: Seq::empty(),
            status: Seq::empty(),
            port_opened: false,
            latest_a: 0,
            latest_b: 0,
            rx_count: 0,
        }
    }

    /// The chosen port is one of those offered, if any are.
    pub open spec fn wf(self) -> bool {
        self.ports.len() == 0 || self.selected_port < self.ports.len()
    }

    /// The panel after a scan for ports.
    pub open spec fn refreshed(self, scan: Result<Seq<PortInfoView>, Seq<char>>) -> PanelState {
        match scan {
            Ok(found) => {
                let ports = all_offered(found);
                PanelState {
                    ports,
                    selected_port: if self.selected_port >= ports.len() {
                        0
                    } else {
                        self.selected_port
                    },
                    status: "Found "@ + decimal_of(ports.len()) + " ports"@,
                    ..self
                }
            },
            Err(error) => PanelState {
                ports: Seq::empty(),
                status: "Port scan error: "@ + error,
                ..self
            },
        }
    }

    /// The panel after it was asked to open the chosen port, and what it asks of the link.
    pub open spec fn opening(self) -> (PanelState, Option<RequestView>) {
        if self.ports.len() == 0 {
            (PanelState { status: "No ports. Click Refresh."@, ..self }, None)
        } else {
            (
                self,
                Some(
                    RequestView::Open {
                        port: self.ports[self.selected_port as int].name,
                        baud: self.baud,
                    },
                ),
            )
        }
    }

    /// The panel after it was asked to send the frequency, and what it asks of the link.
    pub open spec fn sending(self, entry: Result<(u32, Seq<char>), Seq<char>>) -> (
        PanelState,
        Option<RequestView>,
    ) {
        match entry {
            Err(error) => (PanelState { status: "Invalid value: "@ + error, ..self }, None),
            Ok((bits, shown)) => if too_low(bits) || too_high(bits) {
                (
                    PanelState {
                        status: "Invalid value, must be with-in 15.0 to 80.0 KHz: "@ + shown,
                        ..self
                    },
                    None,
                )
            } else {
                (self, Some(RequestView::RxPair { a: period_of(bits) as u32, b: 0 }))
            },
        }
    }

    /// The panel after a report of the link. A status that starts like that of an open port or
    /// of a closed one says whether the port counts as open.
    pub open spec fn received(self, report: ReportView) -> PanelState {
        match report {
            ReportView::Status(text) => PanelState {
                status: text,
                port_opened: if starts_with_four(text, "Open"@) {
                    true
                } else if starts_with_four(text, "Clos"@) {
                    false
                } else {
                    self.port_opened
                },
                ..self
            },
            ReportView::RxPair { a, b } => PanelState {
                latest_a: a,
                latest_b: b,
                rx_count: (self.rx_count + 1) as u64,
                ..self
            },
        }
    }

    /// The panel after these reports of the link, in order.
    pub open spec fn received_all(self, reports: Seq<ReportView>) -> PanelState
        decreases reports.len(),
    {
        if reports.len() == 0 {
            self
        } else {
            self.received_all(reports.drop_last()).received(reports.last())
        }
    }
}

/// The panel.
#[derive(Debug)]
pub struct App {
    fonts_initialized: bool,
    ports: Vec<FullPort>,
    selected_port: usize,
    baud: u32,
    number_text: String,
    status: String,
    port_opened: bool,
    latest_a: u32,
    latest_b: u32,
    rx_count: u64,
}

impl View for App {
    type V = PanelState;

    closed spec fn view(&self) -> PanelState {
        PanelState {
            fonts_initialized: self.fonts_initialized,
            ports: offered_views(self.ports@),
            selected_port: self.selected_port as nat,
            baud: self.baud,
            number_text: self.number_text@,
            status: self.status@,
            port_opened: self.port_opened,
            latest_a: self.latest_a,
            latest_b: self.latest_b,
            rx_count: self.rx_count,
        }
    }
}

impl App {
    /// The chosen port is one of those offered, if any are.
    #[verifier::type_invariant]
    spec fn choice_is_offered(self) -> bool {
        self.ports@.len() == 0 || self.selected_port < self.ports@.len()
    }

    /// The panel after a first scan for ports.
    pub fn new(scan: Result<Vec<PortInfo>, String>) -> (app: App)
        ensures
            app@ == PanelState::initial().refreshed(scan_view(scan)),
    {
        let mut app = App {
            fonts_initialized: false,
            ports: Vec::new(),
            selected_port: 0,
            baud: DEFAULT_BAUD,
            number_text: String::new(),
            status: String::new(),
            port_opened: false,
            latest_a: 0,
            latest_b: 0,
            rx_count: 0,
        };
        assert(app@ =~= PanelState::initial());
        app.refresh_ports(scan);
        app
    }

    /// Takes over the outcome of a scan for ports.
    pub fn refresh_ports(&mut self, scan: Result<Vec<PortInfo>, String>)
        ensures
            final(self)@ == old(self)@.refreshed(scan_view(scan)),
    {
        self.ports = Vec::new();
        match scan {
            Ok(list) => {
                let ports = offer_all(list);
                if self.selected_port >= ports.len() {
                    self.selected_port = 0;
                }
                self.ports = ports;
                let mut status = joined("Found ", decimal(self.ports.len() as u64).as_str());
                status.append(" ports");
                self.status = status;
            },
            Err(error) => {
                self.status = joined("Port scan error: ", error.as_str());
            },
        }
        assert(self@ =~= old(self)@.refreshed(scan_view(scan)));
    }

    /// What to ask of the link to open the chosen port.
    pub fn open_selected(&mut self) -> (request: Option<ToSerial>)
        ensures
            old(self)@.wf(),
            (final(self)@, request_view(request)) == old(self)@.opening(),
    {
        proof {
            use_type_invariant(&*self);
        }
        if self.ports.is_empty() {
            self.status = "No ports. Click Refresh.".to_owned();
            assert(self@ =~= old(self)@.opening().0);
            return None;
        }
        let port = self.ports[self.selected_port].name.clone();
        let baud: u32 = self.baud;
        Some(ToSerial::Open { port, baud })
    }

    /// What to ask of the link to close the port.
    pub fn close_port(&mut self) -> (request: ToSerial)
        ensures
            final(self)@ == old(self)@,
            request@ == RequestView::Close,
    {
        ToSerial::Close
    }

    /// What to ask of the link to send the frequency that the user entered; `entry` is the text
    /// read as a number, or why it cannot be.
    pub fn send_number(&mut self, entry: Result<Frequency, String>) -> (request: Option<ToSerial>)
        ensures
            (final(self)@, request_view(request)) == old(self)@.sending(entry_view(entry)),
    {
        proof {
            use_type_invariant(&*self);
        }
        match entry {
            Err(error) => {
                self.status = joined("Invalid value: ", error.as_str());
                assert(self@ =~= old(self)@.sending(entry_view(entry)).0);
                None
            },
            Ok(frequency) => match period_ticks(frequency.bits) {
                None => {
                    self.status = joined(
                        "Invalid value, must be with-in 15.0 to 80.0 KHz: ",
                        frequency.shown.as_str(),
                    );
                    assert(self@ =~= old(self)@.sending(entry_view(entry)).0);
                    None
                },
                Some(period) => Some(ToSerial::RxPair { a: period, b: 0 }),
            },
        }
    }

    /// Takes over one report of the link.
    pub fn receive(&mut self, report: FromSerial)
        requires
            showable(report@),
            report is RxPair ==> old(self)@.rx_count < u64::MAX,
        ensures
            final(self)@ == old(self)@.received(report@),
    {
        proof {
            use_type_invariant(&*self);
            reveal_strlit("Open");
            reveal_strlit("Clos");
            assert("Open"@.take(4)[0] != "Clos"@.take(4)[0]);
        }
        match report {
            FromSerial::Status(text) => {
                self.status = text;
                if has_prefix_of_four(self.status.as_str(), "Open") {
                    self.port_opened = true;
                }
                if has_prefix_of_four(self.status.as_str(), "Clos") {
                    self.port_opened = false;
                }
            },
            FromSerial::RxPair { a, b } => {
                self.latest_a = a;
                self.latest_b = b;
                self.rx_count = self.rx_count + 1;
            },
        }
        assert(self@ =~= old(self)@.received(report@));
    }

    /// Whether the panel can take over these reports.
    pub fn accepts(&self, reports: &Vec<FromSerial>) -> (ok: bool)
        ensures
            ok == acceptable(self@, report_views(reports@)),
    {
        let ghost views = report_views(reports@);
        let room: u64 = u64::MAX - self.rx_count;
        let mut pairs: u64 = 0;
        let mut i: usize = 0;
        while i < reports.len()
            invariant
                0 <= i <= reports@.len(),
                views == report_views(reports@),
                room == u64::MAX - self@.rx_count,
                pairs == pairs_among(views.take(i as int)),
                pairs <= room,
                forall|j: int| 0 <= j < i ==> showable(#[trigger] views[j]),
            decreases reports@.len() - i,
        {
            proof {
                assert(views.take(i + 1).drop_last() =~= views.take(i as int));
                assert(views.take(i + 1).last() == views[i as int]);
                lemma_pairs_among_grow(views, i + 1);
            }
            match &reports[i] {
                FromSerial::Status(text) => {
                    if !can_split_at_four(text.as_str()) {
                        assert(!showable(views[i as int]));
                        return false;
                    }
                },
                FromSerial::RxPair { .. } => {
                    if pairs >= room {
                        return false;
                    }
                    pairs = pairs + 1;
                },
            }
            i = i + 1;
        }
        assert(views.take(i as int) =~= views);
        true
    }

    /// Takes over the reports of the link that have come in, in order.
    pub fn poll_incoming(&mut self, reports: Vec<FromSerial>)
        requires
            acceptable(old(self)@, report_views(reports@)),
        ensures
            final(self)@ == old(self)@.received_all(report_views(reports@)),
    {
        let ghost views = report_views(reports@);
        for report in it: reports
            invariant
                it.seq() == reports@,
                views == report_views(reports@),
                acceptable(old(self)@, views),
                self@ == old(self)@.received_all(views.take(it.index() as int)),
                self@.rx_count == old(self)@.rx_count + pairs_among(
                    views.take(it.index() as int),
                ),
        {
            let ghost i = it.index() as int;
            proof {
                assert(report@ == views[i]);
                assert(views.take(i + 1).drop_last() =~= views.take(i));
                assert(views.take(i + 1).last() == report@);
                lemma_pairs_among_grow(views, i + 1);
            }
            self.receive(report);
        }
        assert(views.take(views.len() as int) =~= views);
    }

    /// What to do before the display is drawn, so many milliseconds after the last look for
    /// reports. The fonts are set once, before the first drawing.
    pub fn begin_display(&mut self, since_poll_ms: u128) -> (plan: DisplayPlan)
        ensures
            plan.set_fonts == !old(self)@.fonts_initialized,
            plan.poll == (since_poll_ms >= POLL_INTERVAL_MS),
            final(self)@ == (PanelState { fonts_initialized: true, ..old(self)@ }),
    {
        proof {
            use_type_invariant(&*self);
        }
        let set_fonts = !self.fonts_initialized;
        self.fonts_initialized = true;
        assert(self@ =~= (PanelState { fonts_initialized: true, ..old(self)@ }));
        DisplayPlan { set_fonts, poll: since_poll_ms >= POLL_INTERVAL_MS }
    }

    /// The ports that are offered.
    pub fn ports(&self) -> (ports: &Vec<FullPort>)
        ensures
            offered_views(ports@) == self@.ports,
    {
        &self.ports
    }

    /// Which of the ports is chosen.
    pub fn selected_port(&self) -> (index: usize)
        ensures
            index == self@.selected_port,
            self@.wf(),
    {
        proof {
            use_type_invariant(self);
        }
        self.selected_port
    }

    /// The name shown for the chosen port; `None` if no port is offered.
    pub fn selected_name(&self) -> (name: Option<&String>)
        ensures
            self@.wf(),
            match name {
                Some(text) => self@.ports.len() > 0 && text@
                    == self@.ports[self@.selected_port as int].full_name,
                None => self@.ports.len() == 0,
            },
    {
        proof {
            use_type_invariant(self);
        }
        if self.ports.is_empty() {
            None
        } else {
            Some(&self.ports[self.selected_port].full_name)
        }
    }

    /// Chooses a port.
    pub fn select_port(&mut self, index: usize)
        requires
            index < old(self)@.ports.len(),
        ensures
            final(self)@ == (PanelState { selected_port: index as nat, ..old(self)@ }),
    {
        self.selected_port = index;
        assert(self@ =~= (PanelState { selected_port: index as nat, ..old(self)@ }));
    }

    /// The speed to open a port at.
    pub fn baud(&self) -> (baud: u32)
        ensures
            baud == self@.baud,
    {
        self.baud
    }

    /// Sets the speed to open a port at.
    pub fn set_baud(&mut self, baud: u32)
        ensures
            final(self)@ == (PanelState { baud, ..old(self)@ }),
    {
        proof {
            use_type_invariant(&*self);
        }
        self.baud = baud;
        assert(self@ =~= (PanelState { baud, ..old(self)@ }));
    }

    /// The frequency that the user is entering.
    pub fn number_text(&self) -> (text: &String)
        ensures
            text@ == self@.number_text,
    {
        &self.number_text
    }

    /// Sets the frequency that the user is entering.
    pub fn set_number_text(&mut self, text: String)
        ensures
            final(self)@ == (PanelState { number_text: text@, ..old(self)@ }),
    {
        proof {
            use_type_invariant(&*self);
        }
        self.number_text = text;
        assert(self@ =~= (PanelState { number_text: text@, ..old(self)@ }));
    }

    /// Whether a port can be opened now.
    pub fn open_enabled(&self) -> (enabled: bool)
        ensures
            enabled == !self@.port_opened,
    {
        !self.port_opened
    }

    /// Whether the port can be closed now.
    pub fn close_enabled(&self) -> (enabled: bool)
        ensures
            enabled == self@.port_opened,
    {
        self.port_opened
    }

    /// Whether the frequency is to be sent, given whether the button was clicked, the text lost
    /// the focus, and the Enter key was pressed.
    pub fn send_requested(&self, clicked: bool, lost_focus: bool, enter: bool) -> (send: bool)
        ensures
            send == (self@.port_opened && (clicked || (lost_focus && enter))),
    {
        self.port_opened && (clicked || (lost_focus && enter))
    }

    /// The line that shows the status.
    pub fn status_line(&self) -> (line: String)
        ensures
            line@ == "Status: "@ + self@.status,
    {
        joined("Status: ", self.status.as_str())
    }

    /// The line that shows how many pairs of numbers were received.
    pub fn rx_count_line(&self) -> (line: String)
        ensures
            line@ == "RX count: "@ + decimal_of(self@.rx_count as nat),
    {
        joined("RX count: ", decimal(self.rx_count).as_str())
    }

    /// The line that shows the first number last received.
    pub fn period_line(&self) -> (line: String)
        ensures
            line@ == "Period value: "@ + decimal_of(self@.latest_a as nat),
    {
        joined("Period value: ", decimal(self.latest_a as u64).as_str())
    }

    /// The line that shows the second number last received.
    pub fn value_b_line(&self) -> (line: String)
        ensures
            line@ == "Value B: 0x"@ + hex_of(self@.latest_b as nat),
    {
        joined("Value B: 0x", hex(self.latest_b).as_str())
    }
}

/// Fewer reports hold no more pairs.
proof fn lemma_pairs_among_grow(reports: Seq<ReportView>, n: int)
    requires
        0 <= n <= reports.len(),
    ensures
        pairs_among(reports.take(n)) <= pairs_among(reports),
    decreases reports.len(),
{
    if n < reports.len() {
        lemma_pairs_among_grow(reports.drop_last(), n);
        assert(reports.drop_last().take(n) =~= reports.take(n));
    } else {
        assert(reports.take(n) =~= reports);
    }
}

/// A port that was found is offered if and only if it is known what it is connected by, and it
/// is offered under its own name. The name shown is that name with what is known of the port.
pub proof fn law_known_port_is_offered(port: PortInfoView)
    ensures
        offered(port) is Some <==> !(port.kind is Unknown),
        offered(port) matches Some(full) ==> full.name == port.name && full.full_name == match port.kind {
            PortKindView::Usb { manufacturer: Some(maker), product: Some(product) } => port.name
                + " "@ + maker + " "@ + product,
            PortKindView::Usb { manufacturer: Some(maker), product: None } => port.name + " "@
                + maker + " "@ + "No product"@,
            PortKindView::Usb { manufacturer: None, product: Some(product) } => port.name + " "@
                + "No manufacturer"@ + " "@ + product,
            PortKindView::Usb { manufacturer: None, product: None } => port.name + " "@
                + "No manufacturer"@ + " "@ + "No product"@,
            PortKindView::Pci => port.name + " (PCI)"@,
            _ => port.name + " (Bluetooth)"@,
        },
{
}

/// The ports found of which it is known what they are connected by, in order.
pub open spec fn known(ports: Seq<PortInfoView>) -> Seq<PortInfoView> {
    ports.filter(|port: PortInfoView| !(port.kind is Unknown))
}

/// As many ports are offered as are known of those found; they are those, in order, each under
/// its own name.
pub proof fn law_known_ports_are_offered_in_order(ports: Seq<PortInfoView>)
    ensures
        all_offered(ports).len() == known(ports).len(),
        forall|i: int|
            0 <= i < known(ports).len() ==> (#[trigger] all_offered(ports)[i]).name == known(
                ports,
            )[i].name && Some(all_offered(ports)[i]) == offered(known(ports)[i]),
    decreases ports.len(),
{
    reveal(Seq::filter);
    if ports.len() > 0 {
        law_known_ports_are_offered_in_order(ports.drop_last());
    }
}

/// A scan puts the known ports on offer and tells how many they are. The choice stays where it
/// is if there is still a port for it, else it goes to the first one. Nothing else changes. A
/// scan that failed leaves no ports, tells why, and changes nothing else.
pub proof fn law_scan_is_taken_over(
    panel: PanelState,
    found: Seq<PortInfoView>,
    error: Seq<char>,
)
    ensures
        ({
            let after = panel.refreshed(Ok(found));
            let n = known(found).len();
            &&& after.ports == all_offered(found)
            &&& after.ports.len() == n
            &&& after.status == "Found "@ + decimal_of(n) + " ports"@
            &&& panel.selected_port < n ==> after.selected_port == panel.selected_port
            &&& panel.selected_port >= n ==> after.selected_port == 0
            &&& after == (PanelState {
                ports: after.ports,
                status: after.status,
                selected_port: after.selected_port,
                ..panel
            })
        }),
        panel.refreshed(Err(error)) == (PanelState {
            ports: Seq::empty(),
            status: "Port scan error: "@ + error,
            ..panel
        }),
{
    law_known_ports_are_offered_in_order(found);
}

/// Whichever of the offered ports is chosen, opening asks for that port by its name, at the
/// speed that is set, and changes nothing. Without ports nothing is asked for, and the status
/// says why.
pub proof fn law_chosen_port_is_asked_for(panel: PanelState, index: nat)
    ensures
        index < panel.ports.len() ==> (PanelState { selected_port: index, ..panel }).opening() == (
            PanelState { selected_port: index, ..panel },
            Some(RequestView::Open { port: panel.ports[index as int].name, baud: panel.baud }),
        ),
        panel.ports.len() == 0 ==> panel.opening() == (
            PanelState { status: "No ports. Click Refresh."@, ..panel },
            None::<RequestView>,
        ),
{
}

/// For a frequency from 15 to 80 kHz, the request is a pair of numbers: the first is the period
/// in ticks of a 100 MHz clock, that is 100,000 divided by the kilohertz, to within 0.51; the
/// second is zero. The panel stays as it is.
pub proof fn law_sent_period_is_accurate(panel: PanelState, bits: u32, shown: Seq<char>)
    requires
        bits % 0x8000_0000 < 0x7F80_0000,
        15 * one() <= scaled_value(bits) <= 80 * one(),
    ensures
        match panel.sending(Ok((bits, shown))) {
            (after, Some(RequestView::RxPair { a, b })) => {
                &&& after == panel
                &&& b == 0
                &&& 1250 <= a <= 6667
                &&& a == period_of(bits)
                &&& 100 * (a * scaled_value(bits)) <= 100 * (100_000 * one()) + 51 * scaled_value(
                    bits,
                )
                &&& 100 * (100_000 * one()) <= 100 * (a * scaled_value(bits)) + 51 * scaled_value(
                    bits,
                )
            },
            _ => false,
        },
{
    law_range_is_from_15_to_80(bits);
    lemma_scaled_by_one(100_000);
    crate::frequency::lemma_range_by_pattern(bits);
    law_period_is_accurate(bits);
    law_period_is_in_range(bits);
}

/// A number below 15 or above 80 is not sent, nor is an infinity, nor a text that is no number:
/// the status says why, and nothing else changes. What parses as no-number is sent as zero.
pub proof fn law_wrong_frequency_is_refused(
    panel: PanelState,
    bits: u32,
    shown: Seq<char>,
    error: Seq<char>,
)
    ensures
        (bits % 0x8000_0000 < 0x7F80_0000 && !(15 * one() <= scaled_value(bits) <= 80 * one()))
            || bits % 0x8000_0000 == 0x7F80_0000 ==> panel.sending(Ok((bits, shown))) == (
            PanelState {
                status: "Invalid value, must be with-in 15.0 to 80.0 KHz: "@ + shown,
                ..panel
            },
            None::<RequestView>,
        ),
        panel.sending(Err(error)) == (
            PanelState { status: "Invalid value: "@ + error, ..panel },
            None::<RequestView>,
        ),
        bits % 0x8000_0000 > 0x7F80_0000 ==> panel.sending(Ok((bits, shown))) == (
            panel,
            Some(RequestView::RxPair { a: 0, b: 0 }),
        ),
{
    law_range_is_from_15_to_80(bits);
}

/// A status is shown as it is. One that starts with "Open" makes the port count as open, one
/// that starts with "Clos" as closed, any other changes nothing of that. Nothing else changes.
pub proof fn law_status_is_taken_over(panel: PanelState, text: Seq<char>, rest: Seq<char>)
    ensures
        panel.received(ReportView::Status("Open"@ + rest)) == (PanelState {
            status: "Open"@ + rest,
            port_opened: true,
            ..panel
        }),
        panel.received(ReportView::Status("Clos"@ + rest)) == (PanelState {
            status: "Clos"@ + rest,
            port_opened: false,
            ..panel
        }),
        text != "Open"@ + text.skip(4) && text != "Clos"@ + text.skip(4) ==> panel.received(
            ReportView::Status(text),
        ) == (PanelState { status: text, ..panel }),
{
    reveal_strlit("Open");
    reveal_strlit("Clos");
    law_prefix_is_in_front(text, "Open"@, rest);
    law_prefix_is_in_front(text, "Clos"@, rest);
    assert(("Clos"@ + rest).take(4)[0] != "Open"@.take(4)[0]);
}

/// Two numbers from the device are shown, the first as the first, and counted. Nothing else
/// changes.
pub proof fn law_pair_is_taken_over(panel: PanelState, a: u32, b: u32)
    requires
        panel.rx_count < u64::MAX,
    ensures
        ({
            let after = panel.received(ReportView::RxPair { a, b });
            &&& after.latest_a == a
            &&& after.latest_b == b
            &&& after.rx_count == panel.rx_count + 1
            &&& after == (PanelState {
                latest_a: a,
                latest_b: b,
                rx_count: after.rx_count,
                ..panel
            })
        }),
{
}

/// Reports are taken over one after the other: those of one batch and then those of another, as
/// if they had come in one.
pub proof fn law_reports_are_taken_over_in_turn(
    panel: PanelState,
    x: Seq<ReportView>,
    y: Seq<ReportView>,
    report: ReportView,
)
    ensures
        panel.received_all(Seq::empty()) == panel,
        panel.received_all(seq![report]) == panel.received(report),
        panel.received_all(x + y) == panel.received_all(x).received_all(y),
    decreases y.len(),
{
    reveal_with_fuel(PanelState::received_all, 2);
    assert(seq![report].drop_last() =~= Seq::<ReportView>::empty());
    if y.len() == 0 {
        assert(x + y =~= x);
    } else {
        law_reports_are_taken_over_in_turn(panel, x, y.drop_last(), report);
        assert((x + y).drop_last() =~= x + y.drop_last());
    }
}

/// The count grows by one for every pair of numbers among the reports, and by nothing else, as
/// long as there is room.
pub proof fn law_pairs_are_counted(panel: PanelState, reports: Seq<ReportView>)
    requires
        panel.rx_count + pairs_among(reports) <= u64::MAX,
    ensures
        panel.received_all(reports).rx_count == panel.rx_count + pairs_among(reports),
        pairs_among(reports) == reports.filter(|report: ReportView| report is RxPair).len(),
    decreases reports.len(),
{
    reveal(Seq::filter);
    if reports.len() > 0 {
        law_pairs_are_counted(panel, reports.drop_last());
    }
}

} // verus!
