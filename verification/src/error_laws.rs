//! What an error says.

use vstd::prelude::*;

use crate::device;
use crate::device::DeviceIdView;
use crate::error;
use crate::error::{ErrorView, SourceView};
use crate::text;
use crate::text_laws;
use crate::usb;
use crate::usb::UsbError;

verus! {

/// An error about a device says which one was asked for; where several carry the
/// identity it says how many.
pub proof fn law_an_error_names_the_device(device: DeviceIdView, count: usize)
    ensures
        error::error_text(ErrorView::NotFound { device }) == "no device matching "@
            + device::id_text(device) + " on the bus"@,
        error::error_text(ErrorView::Ambiguous { device, count }) == text::dec(count as nat)
            + " devices match "@ + device::id_text(device) + " - add a serial to pick one"@,
        error::error_text(ErrorView::NotBack { device }) == "device "@ + device::id_text(device)
            + " did not re-enumerate after power-on"@,
{
}

/// An error about a hub above a device says where both are, who the hub is where
/// that is known, and how many levels up it is.
pub proof fn law_an_error_names_the_hub_above(
    device: Seq<char>,
    hub: Seq<char>,
    found: DeviceIdView,
    expected: DeviceIdView,
    levels: u8,
)
    ensures
        text_laws::holds(
            error::error_text(ErrorView::BehindHub { device, hub, hub_id: None, levels }),
            device + " is behind hub "@ + hub + ", which does not switch power per port"@,
        ),
        text_laws::holds(
            error::error_text(ErrorView::BehindHub { device, hub, hub_id: Some(found), levels }),
            device + " is behind hub "@ + hub + " ("@ + device::id_text(found)
                + "), which does not switch power per port"@,
        ),
        text_laws::holds(
            error::error_text(ErrorView::BehindHub { device, hub, hub_id: None, levels }),
            text::dec(levels as nat) + " level(s) above the device"@,
        ),
        text_laws::holds(
            error::error_text(ErrorView::BehindHub { device, hub, hub_id: Some(found), levels }),
            text::dec(levels as nat) + " level(s) above the device"@,
        ),
        error::error_text(ErrorView::HubMismatch { device, hub, found: None, expected }) == "hub "@
            + hub + " above "@ + device + " is not the expected "@ + device::id_text(expected),
        error::error_text(ErrorView::HubMismatch { device, hub, found: Some(found), expected })
            == "hub "@ + hub + " ("@ + device::id_text(found) + ")"@ + " above "@ + device
            + " is not the expected "@ + device::id_text(expected),
        error::error_text(ErrorView::NoSwitchableHub { device }) == "no hub above "@ + device
            + " does per-port power switching (PPPS)"@,
        error::error_text(ErrorView::NothingAbove { device, levels }) == device
            + " has fewer than "@ + text::dec(levels as nat) + " switchable hub(s) above it"@,
{
    lemma_behind(device, hub, None, levels);
    lemma_behind(device, hub, Some(found), levels);
    reveal_strlit("), which does not switch power per port");
    reveal_strlit(")");
    reveal_strlit(", which does not switch power per port");
    assert(device + " is behind hub "@ + hub + Seq::<char>::empty()
        + ", which does not switch power per port"@ =~= device + " is behind hub "@ + hub
        + ", which does not switch power per port"@);
    assert(device + " is behind hub "@ + hub + (" ("@ + device::id_text(found) + ")"@)
        + ", which does not switch power per port"@ =~= device + " is behind hub "@ + hub + " ("@
        + device::id_text(found) + "), which does not switch power per port"@);
    assert("hub "@ + hub + Seq::<char>::empty() =~= "hub "@ + hub);
    assert("hub "@ + hub + (" ("@ + device::id_text(found) + ")"@) =~= "hub "@ + hub + " ("@
        + device::id_text(found) + ")"@);
}

proof fn lemma_behind(device: Seq<char>, hub: Seq<char>, id: Option<DeviceIdView>, levels: u8)
    ensures
        ({
            let said = error::error_text(
                ErrorView::BehindHub { device, hub, hub_id: id, levels },
            );
            &&& text_laws::holds(
                said,
                device + " is behind hub "@ + hub + error::id_hint(id)
                    + ", which does not switch power per port"@,
            )
            &&& text_laws::holds(said, text::dec(levels as nat) + " level(s) above the device"@)
        }),
{
    let said = error::error_text(ErrorView::BehindHub { device, hub, hub_id: id, levels });
    let front = device + " is behind hub "@ + hub + error::id_hint(id);
    let middle =
        ", which does not switch power per port; cutting the port above it would take every device on that hub. To cycle that hub and everything on it deliberately, ask for the hub "@;
    let number = text::dec(levels as nat);
    let back = " level(s) above the device (find_above)"@;
    assert(said == front + middle + number + back);
    reveal_strlit(
        ", which does not switch power per port; cutting the port above it would take every device on that hub. To cycle that hub and everything on it deliberately, ask for the hub ",
    );
    reveal_strlit(", which does not switch power per port");
    reveal_strlit(" level(s) above the device (find_above)");
    reveal_strlit(" level(s) above the device");
    let short = ", which does not switch power per port"@;
    assert(middle =~= short + middle.skip(short.len() as int));
    assert(said =~= Seq::<char>::empty() + (front + short) + (middle.skip(short.len() as int)
        + number + back));
    let above = " level(s) above the device"@;
    assert(back =~= above + back.skip(above.len() as int));
    assert(said =~= (front + middle) + (number + above) + back.skip(above.len() as int));
}

/// An error about a hub says where it is, and why it could not be read; a missing
/// permission comes with a hint at the way out, and nothing else does.
pub proof fn law_an_error_names_the_hub(location: Seq<char>, source: UsbError)
    ensures
        text_laws::holds(
            error::error_text(ErrorView::HubMissing { location }),
            "no hub enumerated at "@ + location,
        ),
        source is Access ==> error::error_text(ErrorView::HubUnreadable { location, source })
            == "hub "@ + location + " could not be read: "@ + usb::usb_error_message(source)
            + " - missing udev rule for usbfs access?"@,
        !(source is Access) ==> error::error_text(ErrorView::HubUnreadable { location, source })
            == "hub "@ + location + " could not be read: "@ + usb::usb_error_message(source),
{
    let said = "no hub enumerated at "@ + location;
    let rest =
        " - did the bus topology change, or does a declared pair name a hub that is not there?"@;
    assert(said + rest =~= Seq::<char>::empty() + said + rest);
    text_laws::lemma_holds(Seq::empty(), said, rest);
    let read = "hub "@ + location + " could not be read: "@ + usb::usb_error_message(source);
    assert(read + Seq::<char>::empty() =~= read);
}

/// An error about a receptacle says which port, and which port or hub is on its
/// other side.
pub proof fn law_an_error_names_both_sides(
    port: Seq<char>,
    other: Seq<char>,
    hub: Seq<char>,
    side: Seq<char>,
)
    ensures
        text_laws::holds(
            error::error_text(ErrorView::PeerNotSwitchable { port, peer: other }),
            port + " is paired with "@ + other,
        ),
        text_laws::holds(
            error::error_text(ErrorView::PeerNotFound { port, candidate: other }),
            "the other half of "@ + port + "'s receptacle should be "@ + other,
        ),
        text_laws::holds(
            error::error_text(ErrorView::HubUnpaired { port, hub, other_side: side }),
            port + " is on one half of a USB 3.x hub whose "@ + side,
        ),
        text_laws::holds(
            error::error_text(ErrorView::HubUnpaired { port, hub, other_side: side }),
            hub + " with a device that has a power LED finds it"@,
        ),
        text_laws::holds(
            error::error_text(ErrorView::PowerOffIneffective { port }),
            port,
        ),
{
    let a = port + " is paired with "@ + other;
    let a_rest =
        ", which switches power in ganged mode; VBUS cannot be cut on this receptacle"@;
    assert(a + a_rest =~= Seq::<char>::empty() + a + a_rest);
    text_laws::lemma_holds(Seq::empty(), a, a_rest);
    let b = "the other half of "@ + port + "'s receptacle should be "@ + other;
    let b_rest =
        ", but that port holds a device of its own, so the hub pairing is wrong - check the USB tree"@;
    assert(b + b_rest =~= Seq::<char>::empty() + b + b_rest);
    text_laws::lemma_holds(Seq::empty(), b, b_rest);
    let c = port + " is on one half of a USB 3.x hub whose "@ + side;
    let middle =
        " half could not be identified; cutting it alone would only disconnect the device, not power it off. Declare the pair for this machine: the USB tree shows the hubs, probing "@;
    let d = hub + " with a device that has a power LED finds it"@;
    let said = error::error_text(ErrorView::HubUnpaired { port, hub, other_side: side });
    assert(said =~= Seq::<char>::empty() + c + (middle + d));
    assert(said =~= (c + middle) + d + Seq::<char>::empty());
    text_laws::lemma_holds(Seq::empty(), c, middle + d);
    text_laws::lemma_holds(c + middle, d, Seq::empty());
    let e_rest =
        " was powered off but the device is still enumerated - the hub accepted PORT_POWER without acting on it (a powered-off port disables its link, USB 3.2 §10.3.1.1)"@;
    assert(port + e_rest =~= Seq::<char>::empty() + port + e_rest);
    text_laws::lemma_holds(Seq::empty(), port, e_rest);
}

/// An error of the system says what the system said: of a port that neither route
/// switches, what each of them gave; of the declared pairs, which line or which
/// file.
pub proof fn law_an_error_says_what_the_system_said(
    port: Seq<char>,
    reason: Seq<char>,
    usbfs: UsbError,
    line: usize,
    path: Seq<char>,
)
    ensures
        error::error_text(ErrorView::SwitchFailed { port, sysfs: Some(reason), usbfs })
            == "could not switch "@ + port + ": usbfs: "@ + usb::usb_error_message(usbfs)
            + "; sysfs: "@ + reason,
        error::error_text(ErrorView::SwitchFailed { port, sysfs: None, usbfs })
            == "could not switch "@ + port + ": usbfs: "@ + usb::usb_error_message(usbfs)
            + "; sysfs: "@ + "no `disable` attribute (kernel < 6.0?)"@,
        text_laws::holds(
            error::error_text(ErrorView::PairsSyntax { line, text: reason }),
            "line "@ + text::dec(line as nat) + " of the hub pairs is not a pair: `"@ + reason
                + "`"@,
        ),
        error::error_text(ErrorView::PairsUnreadable { path, source: reason })
            == "hub pairs file "@ + path + " could not be read: "@ + reason,
        error::error_text(ErrorView::Usb(usbfs)) == "usb error: "@ + usb::usb_error_message(usbfs),
        error::error_text(ErrorView::Io(reason)) == "i/o error: "@ + reason,
{
    reveal_strlit("` (expected `<hub> <hub>` or `<hub> none`, e.g. `2-1 usb3`)");
    reveal_strlit("`");
    let said = error::error_text(ErrorView::PairsSyntax { line, text: reason });
    let part = "line "@ + text::dec(line as nat) + " of the hub pairs is not a pair: `"@ + reason
        + "`"@;
    let rest = said.skip(part.len() as int);
    assert(said =~= Seq::<char>::empty() + part + rest);
    text_laws::lemma_holds(Seq::empty(), part, rest);
}

/// What an error was caused by is told where another error is behind it, and only
/// there.
pub proof fn law_an_error_tells_its_cause(error: ErrorView, source: UsbError, reason: Seq<char>)
    ensures
        error::cause(error) is Some <==> error is HubUnreadable || error is SwitchFailed
            || error is PairsUnreadable || error is Usb || error is Io,
        error matches ErrorView::HubUnreadable { source, .. } ==> error::cause(error) == Some(
            SourceView::Usb(source),
        ),
        error matches ErrorView::SwitchFailed { usbfs, .. } ==> error::cause(error) == Some(
            SourceView::Usb(usbfs),
        ),
        error matches ErrorView::PairsUnreadable { source, .. } ==> error::cause(error) == Some(
            SourceView::Io(source),
        ),
        error::cause(ErrorView::Usb(source)) == Some(SourceView::Usb(source)),
        error::cause(ErrorView::Io(reason)) == Some(SourceView::Io(reason)),
{
}

} // verus!
