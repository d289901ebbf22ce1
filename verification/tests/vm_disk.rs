use simulatron::vm::disk::{
    disk_command_check, disk_finish, disk_load_status, disk_media_changed, disk_store_control, new_disk, DiskCodes,
    DiskCommand, DiskState, ADDRESS_CMD, ADDRESS_DA_2, ADDRESS_DA_3, ADDRESS_DA_4, ADDRESS_NBA_1, ADDRESS_NBA_2,
    ADDRESS_NBA_3, ADDRESS_NBA_4, ADDRESS_STATUS, DISK_BUFFER_SIZE,
};

const INTERRUPT_NUM: u32 = 42;

/// Flag bits and command codes for these tests.
const CODES: DiskCodes = DiskCodes {
    connected: 0x01,
    success: 0x02,
    bad_command: 0x04,
    finished: 0x08,
    read: 0x01,
    write: 0x02,
    contiguous_read: 0x03,
    contiguous_write: 0x04,
};

const BLOCK: usize = DISK_BUFFER_SIZE as usize;

/// A controller and its disk: the disk's file (if one is inserted) and the
/// data buffer.
struct Fixture {
    s: DiskState,
    file: Option<Vec<u8>>,
    buffer: Vec<u8>,
}

impl Fixture {
    fn new() -> Self {
        let s = new_disk(INTERRUPT_NUM);
        let mut f = Fixture { s, file: None, buffer: vec![0; BLOCK] };
        // The initial check of the directory.
        assert_eq!(f.media_changed(), INTERRUPT_NUM);
        f
    }

    fn connected(num_blocks: u32) -> Self {
        let mut f = Fixture::new();
        f.file = Some(vec![0; num_blocks as usize * BLOCK]);
        assert_eq!(f.media_changed(), INTERRUPT_NUM);
        assert_eq!(f.s.status, CODES.connected);
        assert_eq!(f.s.blocks_available, num_blocks);
        f
    }

    fn media_changed(&mut self) -> u32 {
        let size = self.file.as_ref().map(|v| v.len() as u64);
        let (s, i) = disk_media_changed(&CODES, self.s, size);
        self.s = s;
        i
    }

    /// Store to a control address; a command runs against the file. The
    /// interrupt sent, if any.
    fn store_control(&mut self, address: u32, value: u8) -> Option<u32> {
        let (s, cmd, int) = disk_store_control(&CODES, self.s, address, value);
        self.s = s;
        match cmd {
            None => int,
            Some(cmd) => match disk_command_check(&CODES, self.s) {
                Err((s, i)) => {
                    self.s = s;
                    Some(i)
                },
                Ok(offset) => {
                    let o = offset as usize;
                    let file = self.file.as_mut().unwrap();
                    match cmd {
                        DiskCommand::Read(_) => self.buffer.copy_from_slice(&file[o..o + BLOCK]),
                        DiskCommand::Write(_) => file[o..o + BLOCK].copy_from_slice(&self.buffer),
                    }
                    let (s, i) = disk_finish(&CODES, self.s, cmd, true);
                    self.s = s;
                    Some(i)
                },
            },
        }
    }
}

fn pattern(seed: u8) -> Vec<u8> {
    (0..BLOCK).map(|i| (i as u8).wrapping_mul(31).wrapping_add(seed)).collect()
}

#[test]
fn test_initial_state() {
    let mut f = Fixture::new();
    assert_eq!(f.s.status, 0);
    assert_eq!(f.s.blocks_available, 0);
    for cmd in [CODES.read, CODES.write, CODES.contiguous_read, CODES.contiguous_write] {
        assert_eq!(f.store_control(ADDRESS_CMD, cmd), Some(INTERRUPT_NUM));
        assert_eq!(f.s.status & CODES.connected, 0);
        assert_eq!(f.s.blocks_available, 0);
    }
}

#[test]
fn test_detects_file() {
    let mut f = Fixture::new();
    f.file = Some(vec![0; BLOCK]);
    assert_eq!(f.media_changed(), INTERRUPT_NUM);
    assert_eq!(f.s.status & CODES.connected, CODES.connected);
    assert_eq!(f.s.blocks_available, 1);
    f.file = None;
    assert_eq!(f.media_changed(), INTERRUPT_NUM);
    assert_eq!(f.s.status & CODES.connected, 0);
    assert_eq!(f.s.blocks_available, 0);
}

#[test]
fn test_weird_disk_files() {
    let mut f = Fixture::new();
    // Not a multiple of the block size.
    let (s, i) = disk_media_changed(&CODES, f.s, Some(BLOCK as u64 - 1));
    assert_eq!(i, INTERRUPT_NUM);
    assert_eq!(s.status & CODES.connected, 0);
    assert_eq!(s.blocks_available, 0);
    // A directory, or several files: no single file.
    let (s, _) = disk_media_changed(&CODES, f.s, None);
    assert_eq!(s.status & CODES.connected, 0);
    // Zero size.
    let (s, _) = disk_media_changed(&CODES, f.s, Some(0));
    assert_eq!(s.status & CODES.connected, 0);
    // One file of one block, then a second of two blocks beside it, then
    // only the second.
    f.file = Some(vec![0; BLOCK]);
    f.media_changed();
    assert_eq!(f.s.status & CODES.connected, CODES.connected);
    assert_eq!(f.s.blocks_available, 1);
    let (s, _) = disk_media_changed(&CODES, f.s, None);
    assert_eq!(s.status & CODES.connected, 0);
    assert_eq!(s.blocks_available, 0);
    let (s, _) = disk_media_changed(&CODES, s, Some(2 * BLOCK as u64));
    assert_eq!(s.status & CODES.connected, CODES.connected);
    assert_eq!(s.blocks_available, 2);
}

#[test]
fn test_read_write() {
    let mut f = Fixture::connected(2);
    assert_eq!(f.store_control(ADDRESS_CMD, CODES.read), Some(INTERRUPT_NUM));
    assert_eq!(f.s.status & CODES.success, CODES.success);
    assert_eq!(f.s.status & CODES.finished, CODES.finished);
    assert!(f.buffer.iter().all(|b| *b == 0));

    let data = pattern(7);
    f.buffer = data.clone();
    assert_eq!(f.store_control(ADDRESS_CMD, CODES.write), Some(INTERRUPT_NUM));
    assert_eq!(f.s.status & CODES.success, CODES.success);
    assert_eq!(f.s.status & CODES.finished, 0);
    assert_eq!(f.s.block_to_access, 0);

    f.buffer = vec![0; BLOCK];
    assert_eq!(f.store_control(ADDRESS_CMD, CODES.read), Some(INTERRUPT_NUM));
    assert_eq!(f.s.status & CODES.finished, CODES.finished);
    assert_eq!(f.s.block_to_access, 0);
    assert_eq!(f.buffer, data);

    assert_eq!(f.store_control(ADDRESS_DA_4, 1), None);
    assert_eq!(f.store_control(ADDRESS_CMD, CODES.read), Some(INTERRUPT_NUM));
    assert_eq!(f.s.status & CODES.success, CODES.success);
    assert_eq!(f.s.status & CODES.finished, 0);
    assert_eq!(f.s.block_to_access, 1);
    assert!(f.buffer.iter().all(|b| *b == 0));
}

#[test]
fn test_sustained_read_write() {
    let mut f = Fixture::connected(2);
    let data1 = pattern(1);
    let data2 = pattern(2);
    f.buffer = data1.clone();
    assert_eq!(f.store_control(ADDRESS_CMD, CODES.contiguous_write), Some(INTERRUPT_NUM));
    assert_eq!(f.s.status & CODES.finished, CODES.finished);
    assert_eq!(f.s.block_to_access, 1);
    f.buffer = data2.clone();
    assert_eq!(f.store_control(ADDRESS_CMD, CODES.contiguous_write), Some(INTERRUPT_NUM));
    assert_eq!(f.s.status & CODES.success, CODES.success);
    assert_eq!(f.s.status & CODES.finished, 0);
    assert_eq!(f.s.block_to_access, 2);

    f.store_control(ADDRESS_DA_4, 0);
    assert_eq!(f.store_control(ADDRESS_CMD, CODES.contiguous_read), Some(INTERRUPT_NUM));
    assert_eq!(f.s.block_to_access, 1);
    assert_eq!(f.buffer, data1);
    assert_eq!(f.store_control(ADDRESS_CMD, CODES.contiguous_read), Some(INTERRUPT_NUM));
    assert_eq!(f.s.block_to_access, 2);
    assert_eq!(f.buffer, data2);
    // Past the last block the command is bad.
    assert_eq!(f.store_control(ADDRESS_CMD, CODES.read), Some(INTERRUPT_NUM));
    assert_eq!(f.s.status & CODES.success, 0);
    assert_eq!(f.s.status & CODES.bad_command, CODES.bad_command);
}

#[test]
fn test_public_interface() {
    let mut f = Fixture::connected(300);
    assert_eq!(disk_load_status(&f.s, ADDRESS_STATUS), CODES.connected);
    assert_eq!(disk_load_status(&f.s, ADDRESS_NBA_1), 0);
    assert_eq!(disk_load_status(&f.s, ADDRESS_NBA_2), 0);
    assert_eq!(disk_load_status(&f.s, ADDRESS_NBA_3), 0b1);
    assert_eq!(disk_load_status(&f.s, ADDRESS_NBA_4), 0b00101100);

    for i in 20..30 {
        f.buffer[i] = i as u8 - 19;
    }
    f.store_control(ADDRESS_DA_4, 15);
    assert_eq!(f.store_control(ADDRESS_CMD, CODES.write), Some(INTERRUPT_NUM));
    assert_eq!(disk_load_status(&f.s, ADDRESS_STATUS) & CODES.success, CODES.success);
    assert_eq!(disk_load_status(&f.s, ADDRESS_STATUS) & CODES.finished, CODES.finished);

    // Block 275.
    f.store_control(ADDRESS_DA_3, 0b1);
    f.store_control(ADDRESS_DA_4, 0b00010011);
    assert_eq!(f.s.block_to_access, 275);
    assert_eq!(disk_load_status(&f.s, ADDRESS_DA_3), 1);
    assert_eq!(f.store_control(ADDRESS_CMD, CODES.read), Some(INTERRUPT_NUM));
    assert_eq!(disk_load_status(&f.s, ADDRESS_STATUS) & CODES.finished, 0);
    assert!(f.buffer.iter().all(|b| *b == 0));

    f.store_control(ADDRESS_DA_3, 0);
    f.store_control(ADDRESS_DA_4, 15);
    assert_eq!(f.store_control(ADDRESS_CMD, CODES.read), Some(INTERRUPT_NUM));
    assert_eq!(disk_load_status(&f.s, ADDRESS_STATUS) & CODES.finished, CODES.finished);
    for i in 0..BLOCK {
        let expected = if (20..30).contains(&i) { i as u8 - 19 } else { 0 };
        assert_eq!(f.buffer[i], expected);
    }
}

#[test]
fn test_bad_command_code_and_second_byte() {
    let mut f = Fixture::connected(1);
    assert_eq!(f.store_control(ADDRESS_CMD, 0xEE), Some(INTERRUPT_NUM));
    assert_eq!(f.s.status, CODES.connected | CODES.bad_command | CODES.finished);
    // The second byte of the block address is stored, but reads as 0.
    assert_eq!(f.store_control(ADDRESS_DA_2, 0x12), None);
    assert_eq!(f.s.block_to_access, 0x0012_0000);
    assert_eq!(disk_load_status(&f.s, ADDRESS_DA_2), 0);
    // A failed input or output clears success and flips finished.
    let s = DiskState { block_to_access: 0, ..f.s };
    let (s2, i) = disk_finish(&CODES, s, DiskCommand::Read(true), false);
    assert_eq!(i, INTERRUPT_NUM);
    assert_eq!(s2.status, CODES.connected);
    assert_eq!(s2.block_to_access, 0);
}
