//! The source of strokes.
use vstd::prelude::*;

use crate::chars::same_string;
use crate::stroke::{key_char, render_keys, steno_order, Stroke, KEY_COUNT};
use vstd::string::StringExecFns;

verus! {

/// Why a machine gave no stroke.
#[derive(Debug, Clone, Copy, PartialEq, Eq, Structural)]
pub enum MachineError {
    /// The machine is gone: the pipeline stops.
    Disconnected,
    /// Nothing was read in time: read again.
    TimedOut,
    /// The bytes read were not a stroke: skip them.
    MalformedPacket,
}

/// A stenography machine, or anything that produces strokes.
pub trait Machine {
    /// Waits until a new stroke is read.
    fn read(&mut self) -> Result<Stroke, MachineError>;

    /// Temporarily disables input.
    fn disable(&self);
}

} // verus!

verus! {

/// The key that each of the 42 bits of a Gemini PR packet stands for, as an index into the
/// steno order; -1 for the function, reserved and power bits. Number bits stand for `#`.
pub open spec fn gemini_chart() -> Seq<i8> {
    seq![
        -1i8, 0i8, 0i8, 0i8, 0i8, 0i8, 0i8,
        1i8, 1i8, 2i8, 3i8, 4i8, 5i8, 6i8,
        7i8, 8i8, 9i8, 10i8, 10i8, -1i8, -1i8,
        -1i8, 10i8, 10i8, 11i8, 12i8, 13i8, 14i8,
        15i8, 16i8, 17i8, 18i8, 19i8, 20i8, 21i8,
        0i8, 0i8, 0i8, 0i8, 0i8, 0i8, 22i8,
    ]
}

/// Number of key bits in a packet: seven in each of its six bytes.
pub const GEMINI_BITS: usize = 42;

pub const GEMINI_PACKET_LEN: usize = 6;

/// Weight of the bit for position `j` (0 to 6) within a byte, after the high bit.
pub open spec fn bit_weight(j: int) -> int {
    if j == 0 {
        64
    } else if j == 1 {
        32
    } else if j == 2 {
        16
    } else if j == 3 {
        8
    } else if j == 4 {
        4
    } else if j == 5 {
        2
    } else {
        1
    }
}

/// Whether key bit `i` of the packet is set.
pub open spec fn bit_set(packet: Seq<u8>, i: int) -> bool {
    (packet[i / 7] as int / bit_weight(i % 7)) % 2 == 1
}

/// Whether the steno key `k` is down in the packet.
pub open spec fn key_down(packet: Seq<u8>, k: int) -> bool {
    exists|i: int| 0 <= i < GEMINI_BITS && gemini_chart()[i] == k && #[trigger] bit_set(packet, i)
}

/// The digit that a key shows in a number stroke.
pub open spec fn digit_of_slot(k: int) -> Option<char> {
    if k == 1 {
        Some('1')
    } else if k == 2 {
        Some('2')
    } else if k == 4 {
        Some('3')
    } else if k == 6 {
        Some('4')
    } else if k == 8 {
        Some('5')
    } else if k == 9 {
        Some('0')
    } else if k == 13 {
        Some('6')
    } else if k == 15 {
        Some('7')
    } else if k == 17 {
        Some('8')
    } else if k == 19 {
        Some('9')
    } else {
        None
    }
}

/// A number stroke: `#` together with a key that has a digit.
pub open spec fn number_mode(packet: Seq<u8>) -> bool {
    key_down(packet, 0) && exists|k: int|
        0 <= k < KEY_COUNT && #[trigger] digit_of_slot(k) is Some && key_down(packet, k)
}

/// What each key shows: a space when up; in a number stroke digits, and no `#`.
pub open spec fn gemini_slots(packet: Seq<u8>) -> Seq<char> {
    Seq::new(
        KEY_COUNT as nat,
        |k: int|
            if !key_down(packet, k) || (number_mode(packet) && k == 0) {
                ' '
            } else if number_mode(packet) && digit_of_slot(k) is Some {
                digit_of_slot(k)->0
            } else {
                steno_order()[k]
            },
    )
}

/// A packet starts with a byte whose high bit is set and has six bytes.
pub open spec fn gemini_packet_ok(packet: Seq<u8>) -> bool {
    packet.len() == GEMINI_PACKET_LEN && packet[0] >= 128
}

fn digit_for(k: usize) -> (r: Option<char>)
    ensures
        r == digit_of_slot(k as int),
{
    if k == 1 {
        Some('1')
    } else if k == 2 {
        Some('2')
    } else if k == 4 {
        Some('3')
    } else if k == 6 {
        Some('4')
    } else if k == 8 {
        Some('5')
    } else if k == 9 {
        Some('0')
    } else if k == 13 {
        Some('6')
    } else if k == 15 {
        Some('7')
    } else if k == 17 {
        Some('8')
    } else if k == 19 {
        Some('9')
    } else {
        None
    }
}

/// Reads a Gemini PR packet: six bytes, the first marked by its high bit, whose other 41
/// bits (and a function bit) tell which keys are down.
pub fn parse_geminipr(packet: &[u8]) -> (r: Result<Stroke, MachineError>)
    ensures
        match r {
            Ok(s) => gemini_packet_ok(packet@) && s@ == render_keys(gemini_slots(packet@)),
            Err(e) => !gemini_packet_ok(packet@) && e == MachineError::MalformedPacket,
        },
{
    if packet.len() != GEMINI_PACKET_LEN || packet[0] < 128 {
        return Err(MachineError::MalformedPacket);
    }
    let chart: [i8; 42] = [
        -1, 0, 0, 0, 0, 0, 0,
        1, 1, 2, 3, 4, 5, 6,
        7, 8, 9, 10, 10, -1, -1,
        -1, 10, 10, 11, 12, 13, 14,
        15, 16, 17, 18, 19, 20, 21,
        0, 0, 0, 0, 0, 0, 22,
    ];
    let weights: [u8; 7] = [64, 32, 16, 8, 4, 2, 1];
    proof {
        assert(chart@ =~= gemini_chart());
    }
    let mut down: Vec<bool> = Vec::new();
    let mut k: usize = 0;
    while k < KEY_COUNT
        invariant
            k <= KEY_COUNT,
            down@.len() == k,
            forall|m: int| 0 <= m < k ==> !down@[m],
        decreases KEY_COUNT - k,
    {
        down.push(false);
        k = k + 1;
    }
    let mut i: usize = 0;
    while i < GEMINI_BITS
        invariant
            i <= GEMINI_BITS,
            packet@.len() == GEMINI_PACKET_LEN,
            chart@ == gemini_chart(),
            weights@ == seq![64u8, 32, 16, 8, 4, 2, 1],
            down@.len() == KEY_COUNT,
            forall|m: int|
                0 <= m < KEY_COUNT ==> down@[m] == exists|j: int|
                    0 <= j < i && gemini_chart()[j] == m && #[trigger] bit_set(packet@, j),
        decreases GEMINI_BITS - i,
    {
        let w = weights[i % 7];
        assert(w as int == bit_weight((i % 7) as int));
        let set = (packet[i / 7] / w) % 2 == 1;
        assert(set == bit_set(packet@, i as int));
        let ghost before = down@;
        let slot = chart[i];
        if set && slot >= 0 {
            down.set(slot as usize, true);
        }
        proof {
            assert forall|m: int| 0 <= m < KEY_COUNT implies down@[m] == exists|j: int|
                0 <= j < i + 1 && gemini_chart()[j] == m && #[trigger] bit_set(packet@, j) by {
                if gemini_chart()[i as int] == m && bit_set(packet@, i as int) {
                    assert(down@[m]);
                } else {
                    assert(down@[m] == before[m]);
                    if exists|j: int|
                        0 <= j < i + 1 && gemini_chart()[j] == m && #[trigger] bit_set(packet@, j) {
                        let j = choose|j: int|
                            0 <= j < i + 1 && gemini_chart()[j] == m && #[trigger] bit_set(
                                packet@,
                                j,
                            );
                        assert(j < i);
                    }
                }
            }
        }
        i = i + 1;
    }
    let digits = down[0] && (down[1] || down[2] || down[4] || down[6] || down[8] || down[9]
        || down[13] || down[15] || down[17] || down[19]);
    proof {
        assert forall|m: int| 0 <= m < KEY_COUNT implies down@[m] == key_down(packet@, m) by {}
        if digits {
            if down@[1] {
                assert(digit_of_slot(1) is Some);
            } else if down@[2] {
                assert(digit_of_slot(2) is Some);
            } else if down@[4] {
                assert(digit_of_slot(4) is Some);
            } else if down@[6] {
                assert(digit_of_slot(6) is Some);
            } else if down@[8] {
                assert(digit_of_slot(8) is Some);
            } else if down@[9] {
                assert(digit_of_slot(9) is Some);
            } else if down@[13] {
                assert(digit_of_slot(13) is Some);
            } else if down@[15] {
                assert(digit_of_slot(15) is Some);
            } else if down@[17] {
                assert(digit_of_slot(17) is Some);
            } else {
                assert(digit_of_slot(19) is Some);
            }
        }
        assert(digits == number_mode(packet@));
    }
    let mut slots: Vec<char> = Vec::new();
    let mut k: usize = 0;
    while k < KEY_COUNT
        invariant
            k <= KEY_COUNT,
            down@.len() == KEY_COUNT,
            digits == number_mode(packet@),
            forall|m: int| 0 <= m < KEY_COUNT ==> down@[m] == key_down(packet@, m),
            slots@.len() == k,
            forall|m: int| 0 <= m < k ==> slots@[m] == gemini_slots(packet@)[m],
        decreases KEY_COUNT - k,
    {
        let c = if !down[k] || (digits && k == 0) {
            ' '
        } else {
            match (digits, digit_for(k)) {
                (true, Some(d)) => d,
                _ => key_char(k),
            }
        };
        slots.push(c);
        k = k + 1;
    }
    proof {
        assert(slots@ =~= gemini_slots(packet@));
    }
    Ok(Stroke::from_slots(slots.as_slice()))
}

} // verus!

verus! {

/// A serial port as the machine search sees it: its name, and the manufacturer that a USB
/// port reports.
#[derive(Debug, PartialEq, Eq)]
pub struct PortInfo {
    pub name: String,
    pub usb_manufacturer: Option<String>,
}

/// Whether the port is a USB port of the given manufacturer.
pub open spec fn made_by(p: PortInfo, manufacturer: Seq<char>) -> bool {
    p.usb_manufacturer matches Some(m) && m@ == manufacturer
}

/// The first port of the given manufacturer.
pub open spec fn first_made_by(ports: Seq<PortInfo>, manufacturer: Seq<char>) -> Option<Seq<char>>
    decreases ports.len(),
{
    if ports.len() == 0 {
        None
    } else if made_by(ports[0], manufacturer) {
        Some(ports[0].name@)
    } else {
        first_made_by(ports.drop_first(), manufacturer)
    }
}

/// The maker of the Georgi steno keyboard, as its USB port reports it.
pub open spec fn georgi_maker() -> Seq<char> {
    "g Heavy Industries"@
}

/// The name of the first port of a Georgi keyboard, if one is connected.
pub fn georgi_port(ports: &Vec<PortInfo>) -> (r: Option<String>)
    ensures
        match r {
            Some(name) => first_made_by(ports@, georgi_maker()) == Some(name@),
            None => first_made_by(ports@, georgi_maker()) is None,
        },
{
    let maker = String::from_str("g Heavy Industries");
    let mut i: usize = 0;
    proof {
        assert(ports@.skip(0) =~= ports@);
    }
    while i < ports.len()
        invariant
            i <= ports@.len(),
            maker@ == georgi_maker(),
            first_made_by(ports@, georgi_maker()) == first_made_by(ports@.skip(i as int), georgi_maker()),
        decreases ports@.len() - i,
    {
        proof {
            assert(ports@.skip(i as int).drop_first() =~= ports@.skip(i + 1));
            assert(ports@.skip(i as int)[0] == ports@[i as int]);
        }
        let found = match &ports[i].usb_manufacturer {
            Some(m) => same_string(m, &maker),
            None => false,
        };
        if found {
            return Some(ports[i].name.clone());
        }
        i = i + 1;
    }
    None
}

} // verus!
