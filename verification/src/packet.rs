//! The magic packet: six bytes of `0xFF`, then the target's hardware
//! address sixteen times over.

use vstd::prelude::*;
use crate::error::WakeError;
use crate::mac::{is_mac_text, octets_of_text, MacAddress};

verus! {

/// The byte that fills the synchronisation stream.
pub const SYNC_BYTE: u8 = 0xFF;

/// Number of synchronisation bytes at the head of a packet.
pub const SYNC_LEN: usize = 6;

/// How often the hardware address follows the synchronisation stream.
pub const MAC_REPEATS: usize = 16;

/// Length of a magic packet in bytes.
pub const PACKET_LEN: usize = 102;

/// `block` written `times` times in a row.
pub open spec fn repeated(block: Seq<u8>, times: nat) -> Seq<u8>
    decreases times,
{
    if times == 0 {
        Seq::empty()
    } else {
        repeated(block, (times - 1) as nat) + block
    }
}

/// The synchronisation stream.
pub open spec fn sync_stream() -> Seq<u8> {
    Seq::new(6, |i: int| 0xFFu8)
}

/// The magic packet that wakes the device with hardware address `mac`.
pub open spec fn magic_packet_bytes(mac: Seq<u8>) -> Seq<u8> {
    sync_stream() + repeated(mac, 16)
}

/// Whether `bytes` is laid out as the magic packet for `mac`: 102 bytes,
/// the first six `0xFF`, and each of the sixteen six-byte blocks after
/// them equal to `mac`.
pub open spec fn is_packet_for(bytes: Seq<u8>, mac: Seq<u8>) -> bool {
    &&& bytes.len() == 102
    &&& forall|i: int| 0 <= i < 6 ==> bytes[i] == 0xFF
    &&& forall|k: int| 0 <= k < 16 ==> #[trigger] bytes.subrange(6 + 6 * k, 12 + 6 * k) == mac
}

/// Whether `bytes` is the magic packet of some hardware address, which is
/// then the one written in bytes 6 to 11.
pub open spec fn is_magic_packet(bytes: Seq<u8>) -> bool {
    bytes.len() == 102 && bytes == magic_packet_bytes(bytes.subrange(6, 12))
}

/// Length and bytes of a repeated block.
pub proof fn lemma_repeated(block: Seq<u8>, times: nat)
    ensures
        repeated(block, times).len() == times * block.len(),
        forall|i: int|
            0 <= i < times * block.len() ==> #[trigger] repeated(block, times)[i] == block[i
                % (block.len() as int)],
    decreases times,
{
    let n = block.len() as int;
    let t = times as int;
    if times == 0 {
        assert(t * n == 0) by (nonlinear_arith)
            requires
                t == 0,
        ;
    } else {
        let before = t - 1;
        lemma_repeated(block, before as nat);
        assert(t * n == before * n + n) by (nonlinear_arith)
            requires
                before == t - 1,
        ;
        assert forall|i: int| 0 <= i < t * n implies #[trigger] repeated(block, times)[i]
            == block[i % n] by {
            if i >= before * n {
                let j = i - before * n;
                assert(i % n == j) by (nonlinear_arith)
                    requires
                        i == before * n + j,
                        0 <= j < n,
                ;
            } else {
                assert(repeated(block, times)[i] == repeated(block, before as nat)[i]);
            }
        }
    }
}

/// The magic packet built for an address has the layout that network
/// interfaces look for: it is 102 bytes long, begins with six bytes of
/// `0xFF`, and the 96 bytes after them are the address sixteen times.
pub proof fn lemma_packet_layout(mac: MacAddress)
    ensures
        is_packet_for(magic_packet_bytes(mac@), mac@),
        is_magic_packet(magic_packet_bytes(mac@)),
{
    let bytes = magic_packet_bytes(mac@);
    lemma_repeated(mac@, 16);
    assert forall|k: int| 0 <= k < 16 implies #[trigger] bytes.subrange(6 + 6 * k, 12 + 6 * k)
        == mac@ by {
        let block = bytes.subrange(6 + 6 * k, 12 + 6 * k);
        assert forall|j: int| 0 <= j < 6 implies block[j] == mac@[j] by {
            assert(block[j] == repeated(mac@, 16)[6 * k + j]);
            assert((6 * k + j) % 6 == j);
        }
        assert(block =~= mac@);
    }
    assert(bytes.subrange(6, 12) == mac@) by {
        let first: int = 0;
        assert(bytes.subrange(6 + 6 * first, 12 + 6 * first) == mac@);
    }
}

/// The layout leaves no freedom: two byte sequences laid out as the
/// magic packet for the same address are equal, byte for byte. Building
/// a packet twice for one address therefore gives the same bytes.
pub proof fn lemma_packet_unique(first: Seq<u8>, second: Seq<u8>, mac: MacAddress)
    requires
        is_packet_for(first, mac@),
        is_packet_for(second, mac@),
    ensures
        first == second,
{
    assert forall|i: int| 0 <= i < 102 implies first[i] == second[i] by {
        if i >= 6 {
            let k = (i - 6) / 6;
            let j = (i - 6) % 6;
            assert(first.subrange(6 + 6 * k, 12 + 6 * k)[j] == first[i]);
            assert(second.subrange(6 + 6 * k, 12 + 6 * k)[j] == second[i]);
        }
    }
    assert(first =~= second);
}

/// A magic packet, ready to be handed to the transport.
#[derive(Debug, PartialEq, Eq)]
pub struct MagicPacket {
    bytes: Vec<u8>,
}

impl View for MagicPacket {
    type V = Seq<u8>;

    /// The bytes of the packet, in the order in which they are sent.
    closed spec fn view(&self) -> Seq<u8> {
        self.bytes@
    }
}

impl MagicPacket {
    #[verifier::type_invariant]
    spec fn well_formed(&self) -> bool {
        is_magic_packet(self.bytes@)
    }

    /// Lays out the magic packet for `mac`.
    pub fn build(mac: MacAddress) -> (packet: MagicPacket)
        ensures
            packet@ == magic_packet_bytes(mac@),
            is_packet_for(packet@, mac@),
    {
        let octets = mac.octets();
        let mut bytes: Vec<u8> = Vec::with_capacity(PACKET_LEN);
        let mut i: usize = 0;
        while i < SYNC_LEN
            invariant
                i <= 6,
                bytes@ == sync_stream().subrange(0, i as int),
            decreases 6 - i,
        {
            bytes.push(SYNC_BYTE);
            i += 1;
            assert(bytes@ =~= sync_stream().subrange(0, i as int));
        }
        assert(bytes@ =~= sync_stream() + repeated(mac@, 0));
        let mut round: usize = 0;
        while round < MAC_REPEATS
            invariant
                round <= 16,
                octets@ == mac@,
                bytes@ == sync_stream() + repeated(mac@, round as nat),
            decreases 16 - round,
        {
            let mut j: usize = 0;
            while j < 6
                invariant
                    j <= 6,
                    round < 16,
                    octets@ == mac@,
                    bytes@ == sync_stream() + repeated(mac@, round as nat) + mac@.subrange(
                        0,
                        j as int,
                    ),
                decreases 6 - j,
            {
                bytes.push(octets[j]);
                j += 1;
                assert(bytes@ =~= sync_stream() + repeated(mac@, round as nat) + mac@.subrange(
                    0,
                    j as int,
                ));
            }
            round += 1;
            assert(mac@.subrange(0, 6) =~= mac@);
            assert(bytes@ =~= sync_stream() + repeated(mac@, round as nat));
        }
        proof {
            lemma_packet_layout(mac);
        }
        MagicPacket { bytes }
    }

    /// Reads `text` as a hardware address and lays out the magic packet
    /// for it. No packet is built from text that is not an address.
    pub fn build_from_text(text: &str) -> (res: Result<MagicPacket, WakeError>)
        ensures
            res is Ok <==> is_mac_text(text@),
            res matches Ok(packet) ==> packet@ == magic_packet_bytes(octets_of_text(text@)),
            res matches Err(error) ==> error == WakeError::InvalidMacAddress,
    {
        match MacAddress::parse(text) {
            Ok(mac) => Ok(MagicPacket::build(mac)),
            Err(error) => Err(error),
        }
    }

    /// The bytes to send.
    pub fn as_bytes(&self) -> (bytes: &[u8])
        ensures
            bytes@ == self@,
            is_magic_packet(self@),
    {
        proof {
            use_type_invariant(self);
        }
        self.bytes.as_slice()
    }

    /// The bytes to send, as an owned vector.
    pub fn into_bytes(self) -> (bytes: Vec<u8>)
        ensures
            bytes@ == self@,
            is_magic_packet(self@),
    {
        proof {
            use_type_invariant(&self);
        }
        self.bytes
    }

    /// The hardware address that this packet wakes.
    pub fn target(&self) -> (mac: MacAddress)
        ensures
            self@ == magic_packet_bytes(mac@),
    {
        proof {
            use_type_invariant(self);
        }
        let mut octets: [u8; 6] = [0u8; 6];
        let mut j: usize = 0;
        while j < 6
            invariant
                j <= 6,
                self.bytes@.len() == 102,
                forall|i: int| 0 <= i < j ==> #[trigger] octets@[i] == self.bytes@[6 + i],
            decreases 6 - j,
        {
            octets[j] = self.bytes[SYNC_LEN + j];
            j += 1;
        }
        assert(octets@ =~= self.bytes@.subrange(6, 12));
        MacAddress::new(octets)
    }
}

impl Clone for MagicPacket {
    /// A copy of the packet.
    fn clone(&self) -> (copy: MagicPacket)
        ensures
            copy@ == self@,
    {
        proof {
            use_type_invariant(self);
        }
        let bytes = self.bytes.clone();
        assert(bytes@ =~= self.bytes@);
        MagicPacket { bytes }
    }
}

} // verus!
