//! A connection to a device in download mode, before a session begins.

use vstd::prelude::*;
use vstd::utf8::{decode_utf8, encode_utf8, valid_utf8};

use crate::odin::error::{outcome, OdinError, OdinFault};
use crate::odin::transcript::{received, sent, Transcript};
use crate::odin::usb::{UsbEvent, UsbTransfer};
use crate::text::{starts_with, text_equal};

verus! {

/// The text that bytes stand for which are not UTF-8: what is not is replaced.
pub uninterp spec fn utf8_lossy(bytes: Seq<u8>) -> Seq<char>;

/// Calls `String::from_utf8_lossy`. Claimed: bytes that are UTF-8 give the text that they
/// encode, and for others the text depends on the bytes alone.
#[verifier::external_body]
fn lossy_text(bytes: &[u8]) -> (text: String)
    ensures
        valid_utf8(bytes@) ==> text@ == decode_utf8(bytes@),
        !valid_utf8(bytes@) ==> text@ == utf8_lossy(bytes@),
{
    String::from_utf8_lossy(bytes).into_owned()
}

/// The text that `bytes` stand for.
pub open spec fn text_of(bytes: Seq<u8>) -> Seq<char> {
    if valid_utf8(bytes) {
        decode_utf8(bytes)
    } else {
        utf8_lossy(bytes)
    }
}

/// The transport that a connection owns.
pub struct Link<T> {
    /// The transport.
    pub usb: T,
}

impl<T> Link<T> {
    /// Takes the transport over.
    pub fn new(usb: T) -> (link: Link<T>)
        ensures
            link.usb == usb,
    {
        Link { usb }
    }
}

/// A connection to a device in download mode.
pub struct OdinConnection {
    /// The transport.
    pub link: Link<Box<dyn UsbTransfer>>,
    /// Whether the device wants no empty packet after a command.
    pub skip_empty_send: bool,
}

/// A device of this name wants an empty packet after every command.
pub open spec fn wants_empty_packets(product: Option<Seq<char>>) -> bool {
    product matches Some(name) && "Gadget Serial"@.is_prefix_of(name)
}

/// Whether `result` is the text that a read of `size` bytes gave.
pub open spec fn text_result(
    size: i32,
    data: Seq<u8>,
    result: Result<Seq<char>, OdinFault>,
) -> bool {
    result == if size < 0 {
        Err(OdinFault::ReceivePacketFailed)
    } else {
        Ok(text_of(data))
    }
}

/// A text was received.
pub open spec fn text_received(
    t0: Transcript,
    t1: Transcript,
    timeout: i32,
    result: Result<Seq<char>, OdinFault>,
) -> bool {
    exists|size: i32, data: Seq<u8>| #[trigger]
        received(t0, t1, 1024, timeout, true, size, data) && text_result(size, data, result)
}

/// What an answer to the greeting comes to.
#[derive(Debug, Clone, Copy, PartialEq, Eq)]
pub enum Greeting {
    /// The device is ready.
    Ready,
    /// The device reports an earlier failure; its answer comes next.
    LeftOver,
    /// Something else answers.
    Foreign,
}

/// What the answer `text` to the greeting comes to.
pub open spec fn greeting(text: Seq<char>) -> Greeting {
    if text == "LOKE"@ {
        Greeting::Ready
    } else if "FAIL"@.is_prefix_of(text) {
        Greeting::LeftOver
    } else {
        Greeting::Foreign
    }
}

/// What the answer `text` to the greeting comes to.
pub fn check_greeting(text: &str) -> (g: Greeting)
    ensures
        g == greeting(text@),
{
    if text_equal(text, "LOKE") {
        Greeting::Ready
    } else if starts_with(text, "FAIL") {
        Greeting::LeftOver
    } else {
        Greeting::Foreign
    }
}

/// The greeting went wrong: `text` came instead of the answer.
pub open spec fn mismatch(text: Seq<char>) -> OdinFault {
    OdinFault::HandshakeMismatch { expected: "LOKE"@, received: text }
}

/// The answer to the greeting was taken: where it is a failure that the device had left
/// over, the next one counts.
pub open spec fn greeting_answered(
    t0: Transcript,
    t1: Transcript,
    text: Seq<char>,
    result: Result<(), OdinFault>,
) -> bool {
    match greeting(text) {
        Greeting::Ready => t1 == t0 && result == Ok::<(), OdinFault>(()),
        Greeting::LeftOver => exists|next: Result<Seq<char>, OdinFault>| #[trigger]
            text_received(t0, t1, 500, next) && result == if next == Ok::<Seq<char>, OdinFault>(
                "LOKE"@,
            ) {
                Ok(())
            } else {
                Err(mismatch(text))
            },
        Greeting::Foreign => t1 == t0 && result == Err::<(), OdinFault>(mismatch(text)),
    }
}

/// The device was greeted.
pub open spec fn greeted(
    t0: Transcript,
    t1: Transcript,
    result: Result<(), OdinFault>,
) -> bool {
    exists|t: Transcript, ok: bool| #[trigger]
        sent(t0.push(UsbEvent::Reset), t, encode_utf8("ODIN"@), 1000, true, ok) && if !ok {
            t1 == t && result == Err::<(), OdinFault>(OdinFault::HandshakeSendFailed)
        } else {
            exists|u: Transcript, answer: Result<Seq<char>, OdinFault>| #[trigger]
                text_received(t, u, 1000, answer) && match answer {
                    Err(_) => t1 == u && result == Err::<(), OdinFault>(
                        OdinFault::HandshakeReceiveFailed,
                    ),
                    Ok(text) => greeting_answered(u, t1, text, result),
                }
        }
}

/// The device was asked what it is.
pub open spec fn device_info_asked(
    t0: Transcript,
    t1: Transcript,
    result: Result<Seq<char>, OdinFault>,
) -> bool {
    exists|t: Transcript, ok: bool| #[trigger]
        sent(t0, t, encode_utf8("DVIF"@), 1000, false, ok) && if !ok {
            t1 == t && result == Err::<Seq<char>, OdinFault>(OdinFault::SendCommandFailed)
        } else {
            exists|size: i32, data: Seq<u8>| #[trigger]
                received(t, t1, 1024, 1000, false, size, data) && result == if size <= 0 {
                    Err(OdinFault::DeviceInfoUnavailable)
                } else {
                    Ok(text_of(data))
                }
        }
}

/// What `parse` makes of the answer of the device, or why there is no answer.
pub open spec fn text_parsed<T, F: FnOnce(&str) -> Result<T, OdinError>>(
    parse: F,
    answer: Result<Seq<char>, OdinFault>,
    result: Result<T, OdinError>,
) -> bool {
    match answer {
        Ok(text) => exists|s: &str| s@ == text && #[trigger] call_ensures(parse, (s,), result),
        Err(fault) => result matches Err(error) && error@ == fault,
    }
}

/// The text that was received, or why there is none.
pub open spec fn text_outcome(result: Result<String, OdinError>) -> Result<Seq<char>, OdinFault> {
    match result {
        Ok(text) => Ok(text@),
        Err(error) => Err(error@),
    }
}

impl OdinConnection {
    /// What has happened on the connection.
    pub open spec fn trace(self) -> Transcript {
        self.link.usb.trace()
    }

    /// A connection over `usb`. Whether the device wants empty packets is known from its
    /// name.
    pub fn new(usb: Box<dyn UsbTransfer>) -> (connection: OdinConnection)
        ensures
            connection.trace() == usb.trace(),
            connection.link.usb.product() == usb.product(),
            connection.skip_empty_send == !wants_empty_packets(usb.product()),
            connection.skip_empty_send <==> !(usb.product() matches Some(name)
                && "Gadget Serial"@.is_prefix_of(name)),
    {
        let link = Link::new(usb);
        OdinConnection::over(link)
    }

    fn over(link: Link<Box<dyn UsbTransfer>>) -> (connection: OdinConnection)
        ensures
            connection.link == link,
            connection.skip_empty_send == !wants_empty_packets(link.usb.product()),
    {
        let skip_empty_send: bool = match link.usb.product_name() {
            Some(name) => !starts_with(name, "Gadget Serial"),
            None => true,
        };
        OdinConnection { link, skip_empty_send }
    }

    /// Whether no empty packet is sent after a command.
    pub fn skip_empty_send(&self) -> (skip: bool)
        ensures
            skip == self.skip_empty_send,
    {
        self.skip_empty_send
    }

    /// Sets whether no empty packet is sent after a command.
    pub fn set_skip_empty_send(&mut self, skip: bool)
        ensures
            final(self).skip_empty_send == skip,
            final(self).trace() == old(self).trace(),
            final(self).link.usb.product() == old(self).link.usb.product(),
    {
        self.skip_empty_send = skip;
    }

    /// Resets the connection and greets the device.
    pub fn init(&mut self) -> (result: Result<(), OdinError>)
        ensures
            greeted(old(self).trace(), final(self).trace(), outcome(result)),
            final(self).skip_empty_send == old(self).skip_empty_send,
    {
        let ghost t0 = self.trace();
        self.link.usb.reset();
        match self.send_string("ODIN", 1000) {
            Ok(()) => {},
            Err(_) => {
                let result: Result<(), OdinError> = Err(OdinError::HandshakeSendFailed);
                assert(sent(
                    t0.push(UsbEvent::Reset),
                    self.trace(),
                    encode_utf8("ODIN"@),
                    1000,
                    true,
                    false,
                ));
                return result;
            },
        }
        let ghost t = self.trace();
        assert(sent(t0.push(UsbEvent::Reset), t, encode_utf8("ODIN"@), 1000, true, true));
        let response: String = match self.receive_string(1000) {
            Ok(text) => text,
            Err(error) => {
                assert(text_received(t, self.trace(), 1000, Err(error@)));
                return Err(OdinError::HandshakeReceiveFailed);
            },
        };
        let ghost u = self.trace();
        assert(text_received(t, u, 1000, Ok(response@)));
        let good: bool = match check_greeting(response.as_str()) {
            Greeting::Ready => true,
            Greeting::LeftOver => {
                let next: Result<String, OdinError> = self.receive_string(500);
                assert(text_received(u, self.trace(), 500, text_outcome(next)));
                match next {
                    Ok(text) => text_equal(text.as_str(), "LOKE"),
                    Err(_) => false,
                }
            },
            Greeting::Foreign => false,
        };
        if good {
            Ok(())
        } else {
            Err(
                OdinError::HandshakeMismatch { expected: "LOKE".to_owned(), received: response },
            )
        }
    }

    /// Sends a text.
    pub fn send_string(&mut self, s: &str, timeout: i32) -> (result: Result<(), OdinError>)
        ensures
            sent(
                old(self).trace(),
                final(self).trace(),
                encode_utf8(s@),
                timeout,
                true,
                result is Ok,
            ),
            result matches Err(error) ==> error@ == OdinFault::SendCommandFailed,
            final(self).skip_empty_send == old(self).skip_empty_send,
    {
        if !self.link.usb.send_data(s.as_bytes(), timeout, true) {
            return Err(OdinError::SendCommandFailed);
        }
        Ok(())
    }

    /// Receives a text.
    pub fn receive_string(&mut self, timeout: i32) -> (result: Result<String, OdinError>)
        ensures
            text_received(
                old(self).trace(),
                final(self).trace(),
                timeout,
                text_outcome(result),
            ),
            final(self).skip_empty_send == old(self).skip_empty_send,
    {
        let ghost t0 = self.trace();
        let mut buffer: Vec<u8> = vec![0u8; 1024];
        let size: i32 = self.link.usb.receive_data(buffer.as_mut_slice(), timeout, true);
        let ghost data = crate::odin::usb::arrived(buffer@, size);
        assert(received(t0, self.trace(), 1024, timeout, true, size, data));
        if size < 0 {
            return Err(OdinError::ReceivePacketFailed);
        }
        buffer.truncate(size as usize);
        assert(buffer@ =~= data);
        Ok(lossy_text(buffer.as_slice()))
    }

    /// Asks the device what it is, and receives its answer as text. No greeting is needed
    /// before.
    pub fn receive_device_info(&mut self) -> (result: Result<String, OdinError>)
        ensures
            device_info_asked(old(self).trace(), final(self).trace(), text_outcome(result)),
            final(self).skip_empty_send == old(self).skip_empty_send,
    {
        let ghost t0 = self.trace();
        let ok: bool = self.link.usb.send_data("DVIF".as_bytes(), 1000, false);
        let ghost t = self.trace();
        assert(sent(t0, t, encode_utf8("DVIF"@), 1000, false, ok));
        if !ok {
            return Err(OdinError::SendCommandFailed);
        }
        let mut buffer: Vec<u8> = vec![0u8; 1024];
        let size: i32 = self.link.usb.receive_data(buffer.as_mut_slice(), 1000, false);
        let ghost data = crate::odin::usb::arrived(buffer@, size);
        assert(received(t, self.trace(), 1024, 1000, false, size, data));
        if size <= 0 {
            return Err(OdinError::DeviceInfoUnavailable);
        }
        buffer.truncate(size as usize);
        assert(buffer@ =~= data);
        Ok(lossy_text(buffer.as_slice()))
    }

    /// Asks the device what it is, and gives what `parse` makes of its answer. No greeting
    /// is needed before.
    pub fn query_device_info<T, F: FnOnce(&str) -> Result<T, OdinError>>(
        &mut self,
        parse: F,
    ) -> (result: Result<T, OdinError>)
        requires
            forall|text: &str| call_requires(parse, (text,)),
        ensures
            exists|answer: Result<Seq<char>, OdinFault>| #[trigger]
                device_info_asked(old(self).trace(), final(self).trace(), answer) && text_parsed(
                    parse,
                    answer,
                    result,
                ),
            final(self).skip_empty_send == old(self).skip_empty_send,
    {
        let answer: Result<String, OdinError> = self.receive_device_info();
        let ghost said = text_outcome(answer);
        assert(device_info_asked(old(self).trace(), self.trace(), said));
        match answer {
            Ok(text) => parse(text.as_str()),
            Err(error) => Err(error),
        }
    }
}

/// What a phone is told to reboot into download mode.
pub open spec fn reboot_text() -> Seq<char> {
    "AT+SUDDLMOD=0,0\r"@
}

/// Tells a phone that runs normally to reboot into download mode.
pub fn reboot_download(backend: &mut Box<dyn UsbTransfer>) -> (result: Result<(), OdinError>)
    ensures
        sent(
            old(backend).trace(),
            final(backend).trace(),
            encode_utf8(reboot_text()),
            1000,
            false,
            result is Ok,
        ),
        sent(
            old(backend).trace(),
            final(backend).trace(),
            encode_utf8("AT+SUDDLMOD=0,0\r"@),
            1000,
            false,
            result is Ok,
        ),
        result matches Err(error) ==> error@ == OdinFault::SerialError("Failed to send data"@),
{
    if !backend.send_data("AT+SUDDLMOD=0,0\r".as_bytes(), 1000, false) {
        return Err(OdinError::SerialError("Failed to send data".to_owned()));
    }
    Ok(())
}

/// Asks the device on a new connection what it is, and gives what `parse` makes of its
/// answer.
pub fn query_device_info<T, F: FnOnce(&str) -> Result<T, OdinError>>(
    usb: Box<dyn UsbTransfer>,
    parse: F,
) -> (result: Result<T, OdinError>)
    requires
        forall|text: &str| call_requires(parse, (text,)),
    ensures
        exists|t1: Transcript, answer: Result<Seq<char>, OdinFault>| #[trigger]
            device_info_asked(usb.trace(), t1, answer) && text_parsed(parse, answer, result),
{
    let link = Link::new(usb);
    let mut connection = OdinConnection::over(link);
    connection.query_device_info(parse)
}

/// Which devices want empty packets: those whose name begins with `Gadget Serial`, and not
/// those without a name.
pub proof fn gadget_serial_wants_empty_packets(name: Seq<char>, rest: Seq<char>)
    ensures
        wants_empty_packets(Some("Gadget Serial"@ + rest)),
        !"Gadget Serial"@.is_prefix_of(name) ==> !wants_empty_packets(Some(name)),
        !wants_empty_packets(None),
{
    let full = "Gadget Serial"@ + rest;
    assert(full.subrange(0, "Gadget Serial"@.len() as int) =~= "Gadget Serial"@);
}

} // verus!
