//! Device-side vocabulary shared by both protocol dialects: the transport
//! error taxonomy, the client selector, the USB device allow-list, the
//! process-wide claimed-device set, and bulk-endpoint selection.
//!
//! The actual USB transfers are performed by the surrounding binary; the
//! functions here make every decision that selection and claiming involve.

use vstd::prelude::*;

verus! {

broadcast use vstd::string::group_string_axioms;

/// Transport-level errors; all of them are fatal to a device session.
#[derive(Debug)]
pub enum SwitchCommError {
    /// A bulk transfer failed; carries the transfer error's text.
    RecvError(String),
    /// A command header did not open with the expected magic bytes.
    BadMagic,
    /// A command header carried a command this dialect does not know.
    UnknownCmd,
    /// A command payload was not valid UTF-8.
    CorruptedCmd,
    /// Reading or writing payload bytes failed; carries the I/O error's text.
    SwitchRw(String),
}

/// Which on-device client application a session speaks to.
#[derive(PartialEq, Eq, Structural, Clone, Copy, Debug)]
pub enum UsbClient {
    Tinfoil,
    Sphaira,
}

impl UsbClient {
    /// Map a command-line protocol flag to a client: `t` selects Tinfoil,
    /// `s` selects Sphaira, anything else is refused.
    pub fn try_from(value: &str) -> (r: Result<UsbClient, ()>)
        ensures
            value@ == "t"@ ==> r == Ok::<UsbClient, ()>(UsbClient::Tinfoil),
            value@ == "s"@ ==> r == Ok::<UsbClient, ()>(UsbClient::Sphaira),
            value@ != "t"@ && value@ != "s"@ ==> r == Err::<UsbClient, ()>(()),
    {
        proof {
            reveal_strlit("t");
            reveal_strlit("s");
            assert("t"@[0] == 't' && "s"@[0] == 's');
            assert("t"@ != "s"@);
        }
        if crate::strutil::str_eq(value, "t") {
            Ok(UsbClient::Tinfoil)
        } else if crate::strutil::str_eq(value, "s") {
            Ok(UsbClient::Sphaira)
        } else {
            Err(())
        }
    }

    /// The client's display name, as printed while waiting for a device.
    pub fn name(&self) -> (r: String)
        ensures
            *self == UsbClient::Tinfoil ==> r@ == "Tinfoil"@,
            *self == UsbClient::Sphaira ==> r@ == "Sphaira"@,
    {
        match self {
            UsbClient::Tinfoil => "Tinfoil".to_owned(),
            UsbClient::Sphaira => "Sphaira".to_owned(),
        }
    }
}

impl Default for UsbClient {
    /// Tinfoil is the default dialect when no flag selects one.
    fn default() -> (r: Self)
        ensures
            r == UsbClient::Tinfoil,
    {
        UsbClient::Tinfoil
    }
}

/// Whether a `(vendor, product)` pair is on the fixed allow-list of USB
/// identities under which a Switch client presents itself.
pub open spec fn spec_is_switch_device(vendor: u16, product: u16) -> bool {
    (vendor == 0x16C0 && product == 0x27E2) || (vendor == 0x057E && product == 0x3000)
}

/// Decide whether a discovered device is a Switch client worth opening.
pub fn is_switch_device(vendor: u16, product: u16) -> (r: bool)
    ensures
        r == spec_is_switch_device(vendor, product),
{
    (vendor == 0x16C0 && product == 0x27E2) || (vendor == 0x057E && product == 0x3000)
}

/// The set of device identifiers already claimed by some session.  A
/// work-stealing executor can race several discovery tasks against one
/// newly plugged device; this set guarantees that each device identifier
/// is claimed by at most one of them.  Identifiers are never purged: a
/// device that reconnects presents a fresh identifier.
pub struct ConnectedIds {
    ids: Vec<u64>,
}

impl View for ConnectedIds {
    type V = Seq<u64>;

    closed spec fn view(&self) -> Seq<u64> {
        self.ids@
    }
}

impl ConnectedIds {
    /// A fresh, empty claim set.
    pub fn new() -> (r: ConnectedIds)
        ensures
            r@ == Seq::<u64>::empty(),
    {
        ConnectedIds { ids: Vec::new() }
    }

    /// Whether the identifier has been claimed already.
    pub fn contains(&self, id: u64) -> (r: bool)
        ensures
            r == self@.contains(id),
    {
        let mut i: usize = 0;
        while i < self.ids.len()
            invariant
                i <= self.ids.len(),
                forall|j: int| 0 <= j < i ==> self.ids@[j] != id,
            decreases self.ids.len() - i,
        {
            if self.ids[i] == id {
                return true;
            }
            i = i + 1;
        }
        false
    }

    /// Claim an identifier.  The claim succeeds exactly when nobody holds
    /// it yet, and a successful claim records it; so over any sequence of
    /// calls, each identifier is handed out at most once.
    pub fn claim(&mut self, id: u64) -> (r: bool)
        ensures
            r == !old(self)@.contains(id),
            final(self)@ == if r {
                old(self)@.push(id)
            } else {
                old(self)@
            },
            final(self)@.contains(id),
    {
        if self.contains(id) {
            false
        } else {
            self.ids.push(id);
            proof {
                assert(self@.last() == id);
            }
            true
        }
    }
}

/// Errors while discovering and claiming a device; all are retried by the
/// discovery loop.
#[derive(Debug)]
pub enum SwitchInitError {
    /// The USB stack reported an error; carries its text.
    UsbError(String),
    /// The claimed interface exposes no bulk endpoint in some direction.
    EpNotFound,
    /// No alternate setting 0 was found on the claimed interface.
    NoInterface,
}

/// The direction of a bulk endpoint, as the interface descriptor states it.
#[derive(PartialEq, Eq, Structural, Clone, Copy, Debug)]
pub enum EpDirection {
    /// Host to device.
    Out,
    /// Device to host.
    In,
}

/// What endpoint selection needs to know of one endpoint descriptor.
#[derive(Clone, Copy, Debug)]
pub struct EpDesc {
    pub direction: EpDirection,
    pub address: u8,
}

/// The index of the first endpoint with the wanted direction, if any.
pub open spec fn spec_first_ep(eps: Seq<EpDesc>, dir: EpDirection) -> Option<int>
    decreases eps.len(),
{
    if eps.len() == 0 {
        None
    } else if eps[0].direction == dir {
        Some(0int)
    } else {
        match spec_first_ep(eps.drop_first(), dir) {
            Some(i) => Some(i + 1),
            None => None,
        }
    }
}

/// Find the address of the first endpoint with the given direction.
fn first_ep_address(eps: &Vec<EpDesc>, dir: EpDirection) -> (r: Option<u8>)
    ensures
        match spec_first_ep(eps@, dir) {
            Some(i) => r == Some(eps@[i].address),
            None => r is None,
        },
{
    let mut i: usize = 0;
    proof {
        assert(eps@.skip(0) =~= eps@);
    }
    while i < eps.len()
        invariant
            i <= eps.len(),
            forall|j: int| 0 <= j < i ==> eps@[j].direction != dir,
            spec_first_ep(eps@, dir) == match spec_first_ep(eps@.skip(i as int), dir) {
                Some(k) => Some(k + i),
                None => None::<int>,
            },
        decreases eps.len() - i,
    {
        proof {
            assert(eps@.skip(i as int)[0] == eps@[i as int]);
            assert(eps@.skip(i as int).drop_first() =~= eps@.skip(i + 1));
        }
        if eps[i].direction == dir {
            return Some(eps[i].address);
        }
        i = i + 1;
    }
    proof {
        assert(eps@.skip(i as int) =~= Seq::<EpDesc>::empty());
    }
    None
}

/// Select the bulk endpoints of a freshly claimed interface: the first
/// `Out` endpoint carries responses, the first `In` endpoint carries
/// requests.  Fails with `EpNotFound` when either direction is missing.
pub fn pick_endpoints(eps: &Vec<EpDesc>) -> (r: Result<(u8, u8), SwitchInitError>)
    ensures
        match r {
            Ok((out_addr, in_addr)) => {
                &&& spec_first_ep(eps@, EpDirection::Out) matches Some(i) && eps@[i].address
                    == out_addr
                &&& spec_first_ep(eps@, EpDirection::In) matches Some(i) && eps@[i].address
                    == in_addr
            },
            Err(e) => {
                &&& e is EpNotFound
                &&& spec_first_ep(eps@, EpDirection::Out) is None || spec_first_ep(
                    eps@,
                    EpDirection::In,
                ) is None
            },
        },
{
    let out_addr = first_ep_address(eps, EpDirection::Out);
    let in_addr = first_ep_address(eps, EpDirection::In);
    match (out_addr, in_addr) {
        (Some(o), Some(i)) => Ok((o, i)),
        _ => Err(SwitchInitError::EpNotFound),
    }
}

} // verus!
