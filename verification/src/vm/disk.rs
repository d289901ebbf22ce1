//! The decisions of a disk controller: the block address assembled from the
//! bytes the processor stores, the commands it accepts or refuses, the
//! status byte's flags, and the step to the next block of a sustained
//! command. Reading and writing the disk's file, watching its directory and
//! sending the interrupt are the caller's work: these functions say what to
//! read or write, and which interrupt to send.
//!
//! The status flag bits and the command codes come in as a `DiskCodes`.
use vstd::prelude::*;

verus! {

/// The offset of the status byte among a disk's control addresses.
pub const ADDRESS_STATUS: u32 = 0;

/// The offsets of the four bytes of the number of blocks available, the
/// most significant first.
pub const ADDRESS_NBA_1: u32 = 1;
pub const ADDRESS_NBA_2: u32 = 2;
pub const ADDRESS_NBA_3: u32 = 3;
pub const ADDRESS_NBA_4: u32 = 4;

/// The offsets of the four bytes of the block to access, the most
/// significant first.
pub const ADDRESS_DA_1: u32 = 5;
pub const ADDRESS_DA_2: u32 = 6;
pub const ADDRESS_DA_3: u32 = 7;
pub const ADDRESS_DA_4: u32 = 8;

/// The offset of the command byte.
pub const ADDRESS_CMD: u32 = 9;

/// The size of a disk block in bytes.
pub const DISK_BUFFER_SIZE: u32 = 4096;

/// The status byte's flags (connected, success, bad command, finished) and
/// the four command codes (read, write, and their sustained forms).
#[derive(Debug, Clone, Copy, PartialEq, Eq, Structural)]
pub struct DiskCodes {
    pub connected: u8,
    pub success: u8,
    pub bad_command: u8,
    pub finished: u8,
    pub read: u8,
    pub write: u8,
    pub contiguous_read: u8,
    pub contiguous_write: u8,
}

/// What a disk controller keeps: its status byte, the number of blocks the
/// disk has, the block to access next, and its interrupt number.
#[derive(Debug, Clone, Copy, PartialEq, Eq, Structural)]
pub struct DiskState {
    pub status: u8,
    pub blocks_available: u32,
    pub block_to_access: u32,
    pub interrupt: u32,
}

/// A command for the disk: read or write the block to access, sustained
/// (`true`: then step to the next block) or not.
#[derive(Debug, Clone, Copy, PartialEq, Eq, Structural)]
pub enum DiskCommand {
    Read(bool),
    Write(bool),
}

/// The status with the finished flag flipped.
pub open spec fn flip_finished(c: DiskCodes, status: u8) -> u8 {
    if status & c.finished != 0 {
        status & !c.finished
    } else {
        status | c.finished
    }
}

/// The status after a refused command: success cleared, bad command set,
/// finished flipped.
pub open spec fn bad_status(c: DiskCodes, status: u8) -> u8 {
    flip_finished(c, (status & !c.success) | c.bad_command)
}

/// The status after a command that succeeded: success set, bad command
/// cleared, finished flipped.
pub open spec fn success_status(c: DiskCodes, status: u8) -> u8 {
    flip_finished(c, (status | c.success) & !c.bad_command)
}

/// The status after a command whose input or output failed: success and
/// bad command cleared, finished flipped.
pub open spec fn failed_status(c: DiskCodes, status: u8) -> u8 {
    flip_finished(c, (status & !c.success) & !c.bad_command)
}

/// A controller with no disk, nothing to access, and the interrupt
/// `interrupt`.
pub open spec fn new_disk_spec(interrupt: u32) -> DiskState {
    DiskState { status: 0, blocks_available: 0, block_to_access: 0, interrupt }
}

/// A store of `value` to the control address `address`: one of the four
/// bytes of the block to access, most significant first; or the command
/// byte, where a known code becomes a command and any other is refused as a
/// bad command, which sends the interrupt. The new state, the command for
/// the disk, and the interrupt to send.
pub open spec fn store_control_spec(c: DiskCodes, s: DiskState, address: u32, value: u8) -> (
    DiskState,
    Option<DiskCommand>,
    Option<u32>,
) {
    let b = s.block_to_access;
    let v = value as u32;
    if address == ADDRESS_DA_1 {
        (DiskState { block_to_access: (b & 0x00FF_FFFF) | (v << 24), ..s }, None, None)
    } else if address == ADDRESS_DA_2 {
        (DiskState { block_to_access: (b & 0xFF00_FFFF) | (v << 16), ..s }, None, None)
    } else if address == ADDRESS_DA_3 {
        (DiskState { block_to_access: (b & 0xFFFF_00FF) | (v << 8), ..s }, None, None)
    } else if address == ADDRESS_DA_4 {
        (DiskState { block_to_access: (b & 0xFFFF_FF00) | v, ..s }, None, None)
    } else if value == c.read {
        (s, Some(DiskCommand::Read(false)), None)
    } else if value == c.write {
        (s, Some(DiskCommand::Write(false)), None)
    } else if value == c.contiguous_read {
        (s, Some(DiskCommand::Read(true)), None)
    } else if value == c.contiguous_write {
        (s, Some(DiskCommand::Write(true)), None)
    } else {
        (DiskState { status: bad_status(c, s.status), ..s }, None, Some(s.interrupt))
    }
}

/// The byte at a readable control address: the status, or a byte of the
/// number of blocks available or of the block to access. The second byte of
/// each is taken by a shift of 26, which leaves nothing of it: it reads 0.
pub open spec fn load_status_spec(s: DiskState, address: u32) -> u8 {
    let n = s.blocks_available;
    let b = s.block_to_access;
    if address == ADDRESS_STATUS {
        s.status
    } else if address == ADDRESS_NBA_1 {
        ((n & 0xFF00_0000) >> 24) as u8
    } else if address == ADDRESS_NBA_2 {
        ((n & 0x00FF_0000) >> 26) as u8
    } else if address == ADDRESS_NBA_3 {
        ((n & 0x0000_FF00) >> 8) as u8
    } else if address == ADDRESS_NBA_4 {
        (n & 0x0000_00FF) as u8
    } else if address == ADDRESS_DA_1 {
        ((b & 0xFF00_0000) >> 24) as u8
    } else if address == ADDRESS_DA_2 {
        ((b & 0x00FF_0000) >> 26) as u8
    } else if address == ADDRESS_DA_3 {
        ((b & 0x0000_FF00) >> 8) as u8
    } else {
        (b & 0x0000_00FF) as u8
    }
}

/// Whether a command can go to the disk: one is connected and the block to
/// access is one it has.
pub open spec fn accepted(c: DiskCodes, s: DiskState) -> bool {
    s.status & c.connected != 0 && s.block_to_access < s.blocks_available
}

/// Checking a command before any input or output: with no disk connected
/// the connected flag is cleared; with the block past the disk's end the
/// command is bad; either way the interrupt is sent (`Err`). Otherwise the
/// byte offset in the disk's file where the block begins (`Ok`).
pub open spec fn command_check_spec(c: DiskCodes, s: DiskState) -> Result<u64, (DiskState, u32)> {
    if s.status & c.connected == 0 {
        Err((DiskState { status: s.status & !c.connected, ..s }, s.interrupt))
    } else if s.block_to_access >= s.blocks_available {
        Err((DiskState { status: bad_status(c, s.status), ..s }, s.interrupt))
    } else {
        Ok((s.block_to_access as u64 * DISK_BUFFER_SIZE as u64) as u64)
    }
}

/// The end of an accepted command, given whether its input or output
/// succeeded: on success a sustained command steps to the next block and
/// the status says success; on failure it says failure. The interrupt is
/// sent either way.
pub open spec fn command_finish_spec(c: DiskCodes, s: DiskState, cmd: DiskCommand, io_ok: bool) -> (DiskState, u32) {
    let sustained = match cmd {
        DiskCommand::Read(x) => x,
        DiskCommand::Write(x) => x,
    };
    if io_ok {
        (DiskState {
            status: success_status(c, s.status),
            block_to_access: if sustained {
                (s.block_to_access + 1) as u32
            } else {
                s.block_to_access
            },
            ..s
        }, s.interrupt)
    } else {
        (DiskState { status: failed_status(c, s.status), ..s }, s.interrupt)
    }
}

/// The number of blocks of a disk file of `bytes` bytes: `None` unless it
/// is a positive whole number of blocks that fits in 32 bits.
pub open spec fn blocks_of(bytes: u64) -> Option<u32> {
    if bytes > 0 && bytes % (DISK_BUFFER_SIZE as u64) == 0 && bytes / (DISK_BUFFER_SIZE as u64) <= u32::MAX {
        Some((bytes / (DISK_BUFFER_SIZE as u64)) as u32)
    } else {
        None
    }
}

/// The disk's directory changed: `file_size` is the size of the one file it
/// holds, `None` where it holds anything else (nothing, several entries, or
/// one that is no file). A file of whole blocks connects the disk with that
/// many blocks; anything else disconnects it. The interrupt is sent either
/// way.
pub open spec fn media_changed_spec(c: DiskCodes, s: DiskState, file_size: Option<u64>) -> (DiskState, u32) {
    match file_size {
        Some(bytes) => match blocks_of(bytes) {
            Some(n) => (DiskState { blocks_available: n, status: s.status | c.connected, ..s }, s.interrupt),
            None => (DiskState { blocks_available: 0, status: s.status & !c.connected, ..s }, s.interrupt),
        },
        None => (DiskState { blocks_available: 0, status: s.status & !c.connected, ..s }, s.interrupt),
    }
}

/// A controller with no disk and the interrupt `interrupt`.
pub fn new_disk(interrupt: u32) -> (r: DiskState)
    ensures
        r == new_disk_spec(interrupt),
{
    DiskState { status: 0, blocks_available: 0, block_to_access: 0, interrupt }
}

fn flip(c: &DiskCodes, status: u8) -> (r: u8)
    ensures
        r == flip_finished(*c, status),
{
    if status & c.finished != 0 {
        status & !c.finished
    } else {
        status | c.finished
    }
}

fn bad(c: &DiskCodes, status: u8) -> (r: u8)
    ensures
        r == bad_status(*c, status),
{
    flip(c, (status & !c.success) | c.bad_command)
}

/// Handle a store to a control address, as `store_control_spec` says.
pub fn disk_store_control(c: &DiskCodes, s: DiskState, address: u32, value: u8) -> (r: (
    DiskState,
    Option<DiskCommand>,
    Option<u32>,
))
    requires
        ADDRESS_DA_1 <= address <= ADDRESS_CMD,
    ensures
        r == store_control_spec(*c, s, address, value),
{
    let b = s.block_to_access;
    let v = value as u32;
    if address == ADDRESS_DA_1 {
        (DiskState { block_to_access: (b & 0x00FF_FFFF) | (v << 24), ..s }, None, None)
    } else if address == ADDRESS_DA_2 {
        (DiskState { block_to_access: (b & 0xFF00_FFFF) | (v << 16), ..s }, None, None)
    } else if address == ADDRESS_DA_3 {
        (DiskState { block_to_access: (b & 0xFFFF_00FF) | (v << 8), ..s }, None, None)
    } else if address == ADDRESS_DA_4 {
        (DiskState { block_to_access: (b & 0xFFFF_FF00) | v, ..s }, None, None)
    } else if value == c.read {
        (s, Some(DiskCommand::Read(false)), None)
    } else if value == c.write {
        (s, Some(DiskCommand::Write(false)), None)
    } else if value == c.contiguous_read {
        (s, Some(DiskCommand::Read(true)), None)
    } else if value == c.contiguous_write {
        (s, Some(DiskCommand::Write(true)), None)
    } else {
        (DiskState { status: bad(c, s.status), ..s }, None, Some(s.interrupt))
    }
}

/// Read a readable control address, as `load_status_spec` says.
pub fn disk_load_status(s: &DiskState, address: u32) -> (r: u8)
    requires
        address <= ADDRESS_DA_4,
    ensures
        r == load_status_spec(*s, address),
{
    let n = s.blocks_available;
    let b = s.block_to_access;
    if address == ADDRESS_STATUS {
        s.status
    } else if address == ADDRESS_NBA_1 {
        ((n & 0xFF00_0000) >> 24) as u8
    } else if address == ADDRESS_NBA_2 {
        ((n & 0x00FF_0000) >> 26) as u8
    } else if address == ADDRESS_NBA_3 {
        ((n & 0x0000_FF00) >> 8) as u8
    } else if address == ADDRESS_NBA_4 {
        (n & 0x0000_00FF) as u8
    } else if address == ADDRESS_DA_1 {
        ((b & 0xFF00_0000) >> 24) as u8
    } else if address == ADDRESS_DA_2 {
        ((b & 0x00FF_0000) >> 26) as u8
    } else if address == ADDRESS_DA_3 {
        ((b & 0x0000_FF00) >> 8) as u8
    } else {
        (b & 0x0000_00FF) as u8
    }
}

/// Check a command before its input or output, as `command_check_spec`
/// says.
pub fn disk_command_check(c: &DiskCodes, s: DiskState) -> (r: Result<u64, (DiskState, u32)>)
    ensures
        r == command_check_spec(*c, s),
        r is Ok <==> accepted(*c, s),
{
    if s.status & c.connected == 0 {
        Err((DiskState { status: s.status & !c.connected, ..s }, s.interrupt))
    } else if s.block_to_access >= s.blocks_available {
        Err((DiskState { status: bad(c, s.status), ..s }, s.interrupt))
    } else {
        assert(s.block_to_access as u64 * DISK_BUFFER_SIZE as u64 <= u64::MAX) by (nonlinear_arith)
            requires
                s.block_to_access <= u32::MAX,
        ;
        Ok(s.block_to_access as u64 * DISK_BUFFER_SIZE as u64)
    }
}

/// Finish an accepted command, as `command_finish_spec` says.
pub fn disk_finish(c: &DiskCodes, s: DiskState, cmd: DiskCommand, io_ok: bool) -> (r: (DiskState, u32))
    requires
        accepted(*c, s),
    ensures
        r == command_finish_spec(*c, s, cmd, io_ok),
{
    let sustained = match cmd {
        DiskCommand::Read(x) => x,
        DiskCommand::Write(x) => x,
    };
    if io_ok {
        let status = flip(c, (s.status | c.success) & !c.bad_command);
        let block_to_access = if sustained {
            s.block_to_access + 1
        } else {
            s.block_to_access
        };
        (DiskState { status, block_to_access, ..s }, s.interrupt)
    } else {
        (DiskState { status: flip(c, (s.status & !c.success) & !c.bad_command), ..s }, s.interrupt)
    }
}

/// React to a change of the disk's directory, as `media_changed_spec` says.
pub fn disk_media_changed(c: &DiskCodes, s: DiskState, file_size: Option<u64>) -> (r: (DiskState, u32))
    ensures
        r == media_changed_spec(*c, s, file_size),
{
    let disconnected = (DiskState { blocks_available: 0, status: s.status & !c.connected, ..s }, s.interrupt);
    match file_size {
        Some(bytes) => {
            let size = DISK_BUFFER_SIZE as u64;
            if bytes > 0 && bytes % size == 0 && bytes / size <= 0xFFFF_FFFF {
                let n = (bytes / size) as u32;
                (DiskState { blocks_available: n, status: s.status | c.connected, ..s }, s.interrupt)
            } else {
                disconnected
            }
        },
        None => disconnected,
    }
}

/// A byte stored to the first, third or fourth byte of the block to access
/// reads back from the same address; the second reads back as 0.
pub proof fn lemma_block_address_read_back(c: DiskCodes, s: DiskState, address: u32, value: u8)
    requires
        ADDRESS_DA_1 <= address <= ADDRESS_DA_4,
    ensures
        address != ADDRESS_DA_2 ==> load_status_spec(store_control_spec(c, s, address, value).0, address) == value,
        address == ADDRESS_DA_2 ==> load_status_spec(store_control_spec(c, s, address, value).0, address) == 0,
{
    let b = s.block_to_access;
    let v = value as u32;
    assert((((b & 0x00FF_FFFF) | (v << 24)) & 0xFF00_0000) >> 24 == v) by (bit_vector)
        requires
            v < 256,
    ;
    assert((((b & 0xFF00_FFFF) | (v << 16)) & 0x00FF_0000) >> 26 == 0) by (bit_vector);
    assert((((b & 0xFFFF_00FF) | (v << 8)) & 0x0000_FF00) >> 8 == v) by (bit_vector)
        requires
            v < 256,
    ;
    assert(((b & 0xFFFF_FF00) | v) & 0x0000_00FF == v) by (bit_vector)
        requires
            v < 256,
    ;
}

/// Storing to the block address changes nothing but the block to access,
/// and sends nothing.
pub proof fn lemma_block_address_store_only(c: DiskCodes, s: DiskState, address: u32, value: u8)
    requires
        ADDRESS_DA_1 <= address <= ADDRESS_DA_4,
    ensures
        ({
            let (s1, cmd, raised) = store_control_spec(c, s, address, value);
            &&& s1 == DiskState { block_to_access: s1.block_to_access, ..s }
            &&& cmd is None
            &&& raised is None
        }),
{
}

/// Every command that ends sends the controller's interrupt, and a
/// sustained command that succeeded has stepped one block on.
pub proof fn lemma_finish_steps(c: DiskCodes, s: DiskState, sustained: bool, read: bool)
    requires
        accepted(c, s),
    ensures
        ({
            let cmd = if read { DiskCommand::Read(sustained) } else { DiskCommand::Write(sustained) };
            let (s1, i) = command_finish_spec(c, s, cmd, true);
            &&& i == s.interrupt
            &&& s1.block_to_access == if sustained { s.block_to_access + 1 } else { s.block_to_access as int }
            &&& s1.blocks_available == s.blocks_available
        }),
{
}

/// Whether the status flags are each set and share no bit.
pub open spec fn flags_ok(c: DiskCodes) -> bool {
    &&& c.connected != 0 && c.success != 0 && c.bad_command != 0 && c.finished != 0
    &&& c.connected & c.success == 0 && c.connected & c.bad_command == 0 && c.connected & c.finished == 0
    &&& c.success & c.bad_command == 0 && c.success & c.finished == 0 && c.bad_command & c.finished == 0
}

/// Each command that ends, well or badly, flips the finished flag and keeps
/// the connected flag; success and bad command then say how it ended.
pub proof fn lemma_finish_flips_finished(c: DiskCodes, s: DiskState, cmd: DiskCommand, io_ok: bool)
    requires
        flags_ok(c),
        accepted(c, s),
    ensures
        ({
            let st = command_finish_spec(c, s, cmd, io_ok).0.status;
            &&& (st & c.finished != 0) == (s.status & c.finished == 0)
            &&& st & c.connected == s.status & c.connected
            &&& (st & c.success != 0) == io_ok
            &&& st & c.bad_command == 0
        }),
{
    let (x, f, sc, b, cn) = (s.status, c.finished, c.success, c.bad_command, c.connected);
    assert(({
        let t = (x | sc) & !b;
        let u = if t & f != 0 { t & !f } else { t | f };
        &&& (u & f != 0) == (x & f == 0)
        &&& u & cn == x & cn
        &&& u & sc != 0
        &&& u & b == 0
    })) by (bit_vector)
        requires
            f != 0 && sc != 0 && b != 0,
            cn & sc == 0 && cn & b == 0 && cn & f == 0 && sc & b == 0 && sc & f == 0 && b & f == 0,
    ;
    assert(({
        let t = (x & !sc) & !b;
        let u = if t & f != 0 { t & !f } else { t | f };
        &&& (u & f != 0) == (x & f == 0)
        &&& u & cn == x & cn
        &&& u & sc == 0
        &&& u & b == 0
    })) by (bit_vector)
        requires
            f != 0 && sc != 0 && b != 0,
            cn & sc == 0 && cn & b == 0 && cn & f == 0 && sc & b == 0 && sc & f == 0 && b & f == 0,
    ;
}

/// A refused command code flips the finished flag, sets bad command, clears
/// success, and keeps the connected flag.
pub proof fn lemma_bad_command_status(c: DiskCodes, status: u8)
    requires
        flags_ok(c),
    ensures
        ({
            let st = bad_status(c, status);
            &&& (st & c.finished != 0) == (status & c.finished == 0)
            &&& st & c.connected == status & c.connected
            &&& st & c.success == 0
            &&& st & c.bad_command != 0
        }),
{
    let (x, f, sc, b, cn) = (status, c.finished, c.success, c.bad_command, c.connected);
    assert(({
        let t = (x & !sc) | b;
        let u = if t & f != 0 { t & !f } else { t | f };
        &&& (u & f != 0) == (x & f == 0)
        &&& u & cn == x & cn
        &&& u & sc == 0
        &&& u & b != 0
    })) by (bit_vector)
        requires
            f != 0 && sc != 0 && b != 0,
            cn & sc == 0 && cn & b == 0 && cn & f == 0 && sc & b == 0 && sc & f == 0 && b & f == 0,
    ;
}

} // verus!
