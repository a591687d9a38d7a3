//! Choice of the serial device: the one the user named, or else the first
//! supported keyboard among the serial ports that the system lists.
//!
//! The library does not list the ports itself. `locate` says whether a list
//! is needed at all, and `detect_device` picks from the list it is given.

use vstd::prelude::*;

verus! {

/// USB vendor and product number of a device.
#[derive(Clone, Copy, Debug, PartialEq, Eq, Structural)]
pub struct UsbId {
    pub vid: u16,
    pub pid: u16,
}

/// How a serial port is attached, as far as the choice depends on it.
#[derive(Clone, Copy, Debug, PartialEq, Eq, Structural)]
pub enum PortKind {
    /// A USB serial device with its numbers.
    Usb(UsbId),
    /// Anything else.
    Other,
}

/// One serial port of the system's list.
#[derive(Debug)]
pub struct PortEntry {
    /// The path or name under which the port is opened.
    pub name: String,
    pub kind: PortKind,
}

/// What the caller of `locate` does next.
#[derive(Debug)]
pub enum Locate {
    /// Connect to this device; no list of ports is needed.
    Use(String),
    /// List the serial ports and hand the list to `detect_device`.
    Enumerate,
}

/// Vendor and product numbers of the keyboards that are found without being
/// named: Keyboardio Model 100, Keyboardio Atreus, Keyboardio Model 01.
pub const SUPPORTED: [(u16, u16); 3] = [(0x3496, 0x0006), (0x1209, 0x2303), (0x1209, 0x2301)];

/// `id` is in the table of supported keyboards.
pub open spec fn supported(id: UsbId) -> bool {
    exists|i: int| 0 <= i < SUPPORTED@.len() && #[trigger] SUPPORTED@[i] == (id.vid, id.pid)
}

/// A port that detection may choose: a USB port of a supported keyboard.
pub open spec fn qualifies(port: PortEntry) -> bool {
    port.kind matches PortKind::Usb(id) && supported(id)
}

/// `at` is the position of the first port in `ports` that qualifies.
pub open spec fn is_first_match(ports: Seq<PortEntry>, at: int) -> bool {
    &&& 0 <= at < ports.len()
    &&& qualifies(ports[at])
    &&& forall|j: int| 0 <= j < at ==> !qualifies(#[trigger] ports[j])
}

/// The name of the first port in `ports` that qualifies, if one does.
pub open spec fn detected(ports: Seq<PortEntry>) -> Option<Seq<char>> {
    if exists|at: int| is_first_match(ports, at) {
        Some(ports[choose|at: int| is_first_match(ports, at)].name@)
    } else {
        None
    }
}

/// Whether `id` is that of a supported keyboard.
pub fn is_supported(id: UsbId) -> (yes: bool)
    ensures
        yes == supported(id),
{
    let mut at: usize = 0;
    while at < SUPPORTED.len()
        invariant
            at <= SUPPORTED@.len(),
            forall|i: int| 0 <= i < at ==> #[trigger] SUPPORTED@[i] != (id.vid, id.pid),
        decreases SUPPORTED@.len() - at,
    {
        let entry = SUPPORTED[at];
        if entry.0 == id.vid && entry.1 == id.pid {
            return true;
        }
        at += 1;
    }
    false
}

/// First step of resolution. A device that the user named is used as it is,
/// unchecked, and no list of ports is asked for; without one, the ports are
/// to be listed.
pub fn locate(explicit: Option<String>) -> (next: Locate)
    ensures
        match explicit {
            Some(device) => next == Locate::Use(device),
            None => next == Locate::Enumerate,
        },
{
    match explicit {
        Some(device) => Locate::Use(device),
        None => Locate::Enumerate,
    }
}

/// Second step of resolution, for when no device was named: the name of the
/// first listed port that is a USB port of a supported keyboard. There is
/// none where listing failed (`None`), where the list is empty, and where no
/// port qualifies.
pub fn detect_device(enumerated: Option<Vec<PortEntry>>) -> (found: Option<String>)
    ensures
        match found {
            Some(name) => enumerated matches Some(ports) && detected(ports@) == Some(name@),
            None => enumerated matches Some(ports) ==> detected(ports@) is None,
        },
{
    match enumerated {
        None => None,
        Some(ports) => {
            let mut at: usize = 0;
            while at < ports.len()
                invariant
                    enumerated == Some(ports),
                    at <= ports.len(),
                    forall|j: int| 0 <= j < at ==> !qualifies(#[trigger] ports@[j]),
                decreases ports.len() - at,
            {
                if let PortKind::Usb(id) = ports[at].kind {
                    if is_supported(id) {
                        proof {
                            lemma_first_match_is_detected(ports@, at as int);
                        }
                        return Some(ports[at].name.clone());
                    }
                }
                at += 1;
            }
            proof {
                lemma_no_match(ports@);
            }
            None
        },
    }
}

/// The first port that qualifies is the one detected.
pub proof fn lemma_first_match_is_detected(ports: Seq<PortEntry>, at: int)
    requires
        is_first_match(ports, at),
    ensures
        detected(ports) == Some(ports[at].name@),
{
    let chosen = choose|k: int| is_first_match(ports, k);
    assert(is_first_match(ports, chosen));
    if chosen < at {
        assert(!qualifies(ports[chosen]));
    }
    if at < chosen {
        assert(!qualifies(ports[at]));
    }
}

/// A list without a port that qualifies yields no device; an empty list is
/// one such.
pub proof fn lemma_no_match(ports: Seq<PortEntry>)
    requires
        forall|j: int| 0 <= j < ports.len() ==> !qualifies(#[trigger] ports[j]),
    ensures
        detected(ports) is None,
{
}

/// A list in which exactly one port qualifies yields that port's name,
/// wherever in the list it stands.
pub proof fn lemma_single_match(ports: Seq<PortEntry>, at: int)
    requires
        0 <= at < ports.len(),
        qualifies(ports[at]),
        forall|j: int| 0 <= j < ports.len() && j != at ==> !qualifies(#[trigger] ports[j]),
    ensures
        detected(ports) == Some(ports[at].name@),
{
    lemma_first_match_is_detected(ports, at);
}

} // verus!
