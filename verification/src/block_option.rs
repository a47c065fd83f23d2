//! The value of the Block1 and Block2 options, RFC 7959 §2.2.
use crate::coap::{first_value, values_of, CoapMessage, MessageView};
use vstd::prelude::*;

verus! {

/// A block's number, whether more blocks follow, and the exponent of its size.
#[derive(Debug, Clone, Copy, PartialEq, Eq, Structural)]
pub struct BlockValue {
    pub num: u16,
    pub more: bool,
    pub size_exponent: u8,
}

/// The block size that an exponent stands for.
pub open spec fn size_of_exponent(exponent: int) -> int {
    if exponent <= 0 {
        16
    } else if exponent == 1 {
        32
    } else if exponent == 2 {
        64
    } else if exponent == 3 {
        128
    } else if exponent == 4 {
        256
    } else if exponent == 5 {
        512
    } else if exponent == 6 {
        1024
    } else {
        2048
    }
}

/// The exponent of the largest block size that does not exceed `room`; that of the smallest size
/// where none fits.
pub open spec fn exponent_within(room: int) -> int {
    if room < 32 {
        0
    } else if room < 64 {
        1
    } else if room < 128 {
        2
    } else if room < 256 {
        3
    } else if room < 512 {
        4
    } else if room < 1024 {
        5
    } else if room < 2048 {
        6
    } else {
        7
    }
}

impl BlockValue {
    /// The size of a block in bytes.
    pub open spec fn size(self) -> int {
        size_of_exponent(self.size_exponent as int)
    }

    /// Where the block starts in the body.
    pub open spec fn offset(self) -> int {
        self.num * self.size()
    }
}

/// The number that at most two bytes spell, the high byte first.
pub open spec fn number_of(bytes: Seq<u8>) -> int {
    if bytes.len() == 0 {
        0
    } else if bytes.len() == 1 {
        bytes[0] as int
    } else {
        bytes[0] as int * 256 + bytes[1] as int
    }
}

/// The block value that an option value spells: the number in the high twelve bits, the flag
/// that more blocks follow in the next, and the size exponent in the last three.
pub open spec fn block_of(bytes: Seq<u8>) -> Option<BlockValue> {
    if bytes.len() > 2 {
        None
    } else {
        let n = number_of(bytes);
        Some(
            BlockValue {
                num: (n / 16) as u16,
                more: (n / 8) % 2 == 1,
                size_exponent: (n % 8) as u8,
            },
        )
    }
}

/// The option value that spells a block value, without leading zero bytes. A number of more than
/// twelve bits loses its high bits.
pub open spec fn block_bytes(block: BlockValue) -> Seq<u8> {
    let n = (block.num as int % 4096) * 16 + (if block.more {
        8int
    } else {
        0int
    }) + block.size_exponent as int % 8;
    if n == 0 {
        Seq::empty()
    } else if n < 256 {
        seq![n as u8]
    } else {
        seq![(n / 256) as u8, (n % 256) as u8]
    }
}

/// The block value that the first option with the given number holds, where it holds one.
pub open spec fn block_option(message: MessageView, number: u16) -> Option<BlockValue> {
    match first_value(message.options, number) {
        Some(value) => block_of(value),
        None => None,
    }
}

/// Reads an option value with `coap_lite`'s conversion of bytes to a `BlockValue`. It fails on
/// more than two bytes only.
#[verifier::external_body]
fn read_block(value: Vec<u8>) -> (r: Option<BlockValue>)
    ensures
        r == block_of(value@),
{
    let block = coap_lite::block_handler::BlockValue::try_from(value).ok()?;
    Some(BlockValue { num: block.num, more: block.more, size_exponent: block.size_exponent })
}

/// Writes an option value with `coap_lite`'s conversion of a `BlockValue` to bytes.
#[verifier::external_body]
fn write_block(block: BlockValue) -> (r: Vec<u8>)
    ensures
        r@ == block_bytes(block),
{
    Vec::from(coap_lite::block_handler::BlockValue {
        num: block.num,
        more: block.more,
        size_exponent: block.size_exponent,
    })
}

impl CoapMessage {
    /// The block value that the first option with the given number holds.
    pub fn get_block_option(&self, number: u16) -> (r: Option<BlockValue>)
        ensures
            r == block_option(self@, number),
    {
        match self.get_first_option(number) {
            Some(value) => read_block(value),
            None => None,
        }
    }

    /// Adds an option that holds a block value.
    pub fn add_block_option(&mut self, number: u16, block: BlockValue)
        ensures
            final(self)@ == (MessageView {
                options: crate::coap::with_option(
                    old(self)@.options,
                    number,
                    block_bytes(block),
                ),
                ..old(self)@
            }),
    {
        let value = write_block(block);
        self.add_option(number, value);
    }
}

/// What is written in an option is read back, for every block number that fits the option.
pub proof fn law_block_option_round_trip(block: BlockValue)
    requires
        block.num < 4096,
        block.size_exponent < 8,
    ensures
        block_of(block_bytes(block)) == Some(block),
{
    let n = block.num as int * 16 + (if block.more {
        8int
    } else {
        0int
    }) + block.size_exponent as int;
    assert(number_of(block_bytes(block)) == n);
    assert(n / 16 == block.num);
    assert((n / 8) % 2 == (if block.more {
        1int
    } else {
        0int
    }));
    assert(n % 8 == block.size_exponent);
}

/// The block value of an option is that of the option's first value; an option that is not there has none.
pub proof fn law_block_value_is_that_of_the_first_value(message: MessageView, number: u16)
    ensures
        block_option(message, number) == (if values_of(message.options, number).len() > 0 {
            block_of(values_of(message.options, number)[0])
        } else {
            None
        }),
{
}

/// The block size doubles with each exponent, from 16 bytes to 2048.
pub proof fn law_block_sizes_double(exponent: int)
    ensures
        size_of_exponent(0) == 16,
        0 <= exponent < 7 ==> size_of_exponent(exponent + 1) == 2 * size_of_exponent(exponent),
        exponent >= 7 ==> size_of_exponent(exponent) == 2048,
{
}

/// The block size that is offered is the largest that there is room for, down to the smallest.
pub proof fn law_largest_block_that_fits(room: int, exponent: int)
    requires
        0 <= exponent <= 7,
    ensures
        0 <= exponent_within(room) <= 7,
        room >= 16 ==> size_of_exponent(exponent_within(room)) <= room,
        room >= 16 && size_of_exponent(exponent) <= room ==> exponent <= exponent_within(room),
        room < 16 ==> exponent_within(room) == 0,
{
}

/// An option value of at most two bytes spells a block value, and no longer one does: the number it makes up,
/// the high byte first, is sixteen times the block's number, eight more where more blocks follow, and the
/// exponent.
pub proof fn law_block_values_are_read_by_their_bits(bytes: Seq<u8>)
    ensures
        block_of(bytes) is Some <==> bytes.len() <= 2,
        block_of(bytes) matches Some(block) ==> {
            &&& block.size_exponent < 8
            &&& block.num * 16 + (if block.more {
                8int
            } else {
                0
            }) + block.size_exponent == (if bytes.len() == 0 {
                0int
            } else if bytes.len() == 1 {
                bytes[0] as int
            } else {
                bytes[0] as int * 256 + bytes[1] as int
            })
        },
{
}

/// A block value is written in as few bytes as spell it.
pub proof fn law_block_values_are_written_short(block: BlockValue)
    requires
        block.num < 4096,
        block.size_exponent < 8,
    ensures
        block_bytes(block).len() <= 2,
        block_bytes(block).len() > 0 ==> block_bytes(block)[0] != 0,
        block_bytes(block).len() == 0 <==> block.num == 0 && !block.more && block.size_exponent
            == 0,
{
}

} // verus!
