//! The connection handle: which ports exist, whether a device is open, and
//! whether its stream is being read.

use vstd::prelude::*;
use crate::text::{optional_text, texts};

verus! {

/// The read timeout every device is opened with, in milliseconds.
pub const READ_TIMEOUT_MS: u64 = 100;

/// How a port is attached.
#[derive(Clone, Copy, Debug, PartialEq, Eq, Structural)]
pub enum PortKind {
    Usb,
    Other,
}

/// A snapshot of one serial port as the system lists it.
#[derive(Clone, Debug, PartialEq, Eq)]
pub struct PortDescriptor {
    pub name: String,
    pub kind: PortKind,
    /// The product string of a USB device, when it reports one.
    pub usb_product: Option<String>,
}

/// Why a connection request was not carried out.
#[derive(Debug)]
pub enum ConnectionError {
    /// The system could not list its ports.
    Enumeration { reason: String },
    /// A device is open already; it has to be closed first.
    AlreadyConnected,
    /// The device could not be opened.
    DeviceOpen { port: String, reason: String },
}

/// What to open and how.
#[derive(Debug)]
pub struct OpenRequest {
    pub port_name: String,
    pub baud_rate: u32,
    pub timeout_ms: u64,
}

/// The label a port is listed under: its name, followed for a USB port by
/// its product string, or by `Unknown` when it reports none.
pub open spec fn port_label(port: PortDescriptor) -> Seq<char> {
    match port.kind {
        PortKind::Usb => port.name@ + " (USB: "@ + match port.usb_product {
            Some(product) => product@,
            None => "Unknown"@,
        } + ")"@,
        PortKind::Other => port.name@,
    }
}

/// The text that describes an error to the user.
pub open spec fn error_text(error: ConnectionError) -> Seq<char> {
    match error {
        ConnectionError::Enumeration { reason } => "Failed to list ports: "@ + reason@,
        ConnectionError::AlreadyConnected => "Already connected to a port"@,
        ConnectionError::DeviceOpen { port, reason } => "Failed to open port "@ + port@ + ": "@
            + reason@,
    }
}

/// The labels of `ports`, in listing order.
pub open spec fn port_labels(ports: Seq<PortDescriptor>) -> Seq<Seq<char>> {
    Seq::new(ports.len(), |i: int| port_label(ports[i]))
}

/// The observable state of a [`Connection`].
pub struct ConnectionView {
    /// A device handle is held.
    pub connected: bool,
    /// The stream of the device is being read.
    pub reading_active: bool,
}

impl ConnectionView {
    /// Reading is only ever active on an open connection.
    pub open spec fn valid(self) -> bool {
        self.reading_active ==> self.connected
    }

    /// The state with no device.
    pub open spec fn disconnected() -> ConnectionView {
        ConnectionView { connected: false, reading_active: false }
    }

    /// The state right after a device was opened: connected and reading.
    pub open spec fn opened() -> ConnectionView {
        ConnectionView { connected: true, reading_active: true }
    }

    /// The state after a pause request.
    pub open spec fn paused(self) -> ConnectionView {
        ConnectionView { connected: self.connected, reading_active: false }
    }

    /// The state after a resume request.
    pub open spec fn resumed(self) -> ConnectionView {
        ConnectionView { connected: self.connected, reading_active: self.connected }
    }

    /// The state after a close request.
    pub open spec fn closed(self) -> ConnectionView {
        ConnectionView::disconnected()
    }
}

/// Tracks whether a device is open and whether its stream is being read.
///
/// The device handle itself stays with the caller, which acquires it after
/// [`Connection::prepare_open`] agreed and releases it when
/// [`Connection::close`] says so.
#[derive(Debug)]
pub struct Connection {
    connected: bool,
    reading_active: bool,
}

impl View for Connection {
    type V = ConnectionView;

    closed spec fn view(&self) -> ConnectionView {
        ConnectionView { connected: self.connected, reading_active: self.reading_active }
    }
}

impl PortDescriptor {
    /// The label this port is listed under.
    pub fn label(&self) -> (label: String)
        ensures
            label@ == port_label(*self),
    {
        let mut label = self.name.clone();
        match self.kind {
            PortKind::Usb => {
                label.append(" (USB: ");
                match &self.usb_product {
                    Some(product) => {
                        label.append(product.as_str());
                    },
                    None => {
                        label.append("Unknown");
                    },
                }
                label.append(")");
            },
            PortKind::Other => {},
        }
        label
    }
}

impl ConnectionError {
    /// The text that describes this error to the user.
    pub fn message(&self) -> (text: String)
        ensures
            text@ == error_text(*self),
    {
        let mut text = String::new();
        match self {
            ConnectionError::Enumeration { reason } => {
                text.append("Failed to list ports: ");
                text.append(reason.as_str());
                assert(text@ =~= error_text(*self));
            },
            ConnectionError::AlreadyConnected => {
                text.append("Already connected to a port");
                assert(text@ =~= error_text(*self));
            },
            ConnectionError::DeviceOpen { port, reason } => {
                text.append("Failed to open port ");
                text.append(port.as_str());
                text.append(": ");
                text.append(reason.as_str());
                assert(text@ =~= error_text(*self));
            },
        }
        text
    }
}

/// Turns the outcome of enumerating the system's ports into the listing:
/// the descriptor of every port, in the order of the enumeration and with
/// nothing added or dropped, or the enumeration error with the system's
/// reason.
pub fn list_ports(enumerated: Result<Vec<PortDescriptor>, String>) -> (listing: Result<
    Vec<PortDescriptor>,
    ConnectionError,
>)
    ensures
        match enumerated {
            Ok(ports) => {
                &&& listing matches Ok(listed)
                &&& listed@.len() == ports@.len()
                &&& forall|i: int|
                    0 <= i < ports@.len() ==> {
                        &&& (#[trigger] listed@[i]).name@ == ports@[i].name@
                        &&& listed@[i].kind == ports@[i].kind
                        &&& optional_text(listed@[i].usb_product) == optional_text(
                            ports@[i].usb_product,
                        )
                    }
            },
            Err(reason) => {
                &&& listing matches Err(ConnectionError::Enumeration { reason: given })
                &&& given@ == reason@
            },
        },
{
    match enumerated {
        Ok(ports) => Ok(ports),
        Err(reason) => Err(ConnectionError::Enumeration { reason }),
    }
}

/// The labels under which `ports` are shown, in listing order.
pub fn labels_of(ports: &Vec<PortDescriptor>) -> (labels: Vec<String>)
    ensures
        texts(labels@) == port_labels(ports@),
{
    let mut labels: Vec<String> = Vec::new();
    let mut i: usize = 0;
    while i < ports.len()
        invariant
            i <= ports.len(),
            labels@.len() == i,
            forall|k: int| 0 <= k < i ==> (#[trigger] labels@[k])@ == port_label(ports@[k]),
        decreases ports.len() - i,
    {
        labels.push(ports[i].label());
        i = i + 1;
    }
    assert(texts(labels@) =~= port_labels(ports@));
    labels
}

impl Connection {
    #[verifier::type_invariant]
    spec fn reading_needs_device(&self) -> bool {
        self.reading_active ==> self.connected
    }

    /// A connection with no device, as at process start.
    pub fn new() -> (connection: Connection)
        ensures
            connection@ == ConnectionView::disconnected(),
    {
        Connection { connected: false, reading_active: false }
    }

    /// Whether a device is open.
    pub fn is_connected(&self) -> (connected: bool)
        ensures
            connected == self@.connected,
            self@.valid(),
    {
        proof {
            use_type_invariant(self);
        }
        self.connected
    }

    /// Whether the stream of the device is being read. Implies that a device
    /// is open.
    pub fn is_reading(&self) -> (reading: bool)
        ensures
            reading == self@.reading_active,
            reading ==> self@.connected,
            self@.valid(),
    {
        proof {
            use_type_invariant(self);
        }
        self.reading_active
    }

    /// Decides whether a device may be opened now. A request made while a
    /// device is open is rejected; otherwise the answer says what to open,
    /// with the fixed read timeout.
    pub fn prepare_open(&self, port_name: &str, baud_rate: u32) -> (request: Result<
        OpenRequest,
        ConnectionError,
    >)
        ensures
            if self@.connected {
                request matches Err(ConnectionError::AlreadyConnected)
            } else {
                &&& request matches Ok(open)
                &&& open.port_name@ == port_name@
                &&& open.baud_rate == baud_rate
                &&& open.timeout_ms == READ_TIMEOUT_MS
            },
    {
        if self.connected {
            Err(ConnectionError::AlreadyConnected)
        } else {
            Ok(
                OpenRequest {
                    port_name: String::from_str(port_name),
                    baud_rate,
                    timeout_ms: READ_TIMEOUT_MS,
                },
            )
        }
    }

    /// Records how the attempt to open `port_name` ended.
    ///
    /// A failed attempt is reported with the system's reason and changes
    /// nothing. A successful one makes the connection connected and reading,
    /// unless a device was opened in the meantime: then the request is
    /// rejected, nothing changes, and the caller lets the new handle go.
    pub fn complete_open(&mut self, port_name: &str, attempt: Result<(), String>) -> (result:
        Result<(), ConnectionError>)
        ensures
            final(self)@.valid(),
            match attempt {
                Err(reason) => {
                    &&& final(self)@ == old(self)@
                    &&& result matches Err(ConnectionError::DeviceOpen { port, reason: given })
                    &&& port@ == port_name@
                    &&& given@ == reason@
                },
                Ok(()) => if old(self)@.connected {
                    &&& final(self)@ == old(self)@
                    &&& result matches Err(ConnectionError::AlreadyConnected)
                } else {
                    &&& final(self)@ == ConnectionView::opened()
                    &&& result is Ok
                },
            },
    {
        proof {
            use_type_invariant(&*self);
        }
        match attempt {
            Err(reason) => Err(
                ConnectionError::DeviceOpen { port: String::from_str(port_name), reason },
            ),
            Ok(()) => {
                if self.connected {
                    Err(ConnectionError::AlreadyConnected)
                } else {
                    self.connected = true;
                    self.reading_active = true;
                    Ok(())
                }
            },
        }
    }

    /// Closes the connection: reading stops and the device is given up. The
    /// answer says whether there was a device for the caller to release.
    /// Closing a closed connection changes nothing.
    pub fn close(&mut self) -> (release: bool)
        ensures
            final(self)@ == old(self)@.closed(),
            release == old(self)@.connected,
    {
        let release = self.connected;
        self.reading_active = false;
        self.connected = false;
        release
    }

    /// Stops reading without giving up the device.
    pub fn pause(&mut self)
        ensures
            final(self)@ == old(self)@.paused(),
    {
        self.reading_active = false;
    }

    /// Takes up reading again. Without a device this does nothing.
    pub fn resume(&mut self)
        ensures
            final(self)@ == old(self)@.resumed(),
    {
        self.reading_active = self.connected;
    }
}

/// Pausing twice is pausing once, and so is resuming.
pub proof fn lemma_pause_resume_idempotent(state: ConnectionView)
    ensures
        state.paused().paused() == state.paused(),
        state.resumed().resumed() == state.resumed(),
        state.paused().paused().reading_active == state.paused().reading_active,
        state.resumed().resumed().reading_active == state.resumed().reading_active,
{
}

/// Pausing and resuming never touch the device, and without one they change
/// nothing.
pub proof fn lemma_pause_resume_keep_device(state: ConnectionView)
    requires
        state.valid(),
    ensures
        state.paused().connected == state.connected,
        state.resumed().connected == state.connected,
        state.paused().valid(),
        state.resumed().valid(),
        !state.connected ==> state.paused() == state && state.resumed() == state,
{
}

/// Closing twice is closing once, and closing a disconnected connection
/// leaves it as it was.
pub proof fn lemma_close_idempotent(state: ConnectionView)
    requires
        state.valid(),
    ensures
        state.closed().closed() == state.closed(),
        !state.closed().connected && !state.closed().reading_active,
        !state.connected ==> state.closed() == state,
{
}

} // verus!
