use rand::seq::SliceRandom;
use rand::thread_rng;
use sockdrive::layer::{Access, Layer, LayerError, SectorIndex, NO_VALUE, SECTOR_SIZE};
use sockdrive::service::{serve_read, serve_write};

/// A store whose blob and meta file are kept in memory.
struct MemStore {
    index: SectorIndex,
    blob: Vec<u8>,
    file_pos: u64,
    meta: Option<Vec<u8>>,
    seeks: usize,
}

impl MemStore {
    fn open(sectors: usize, meta: Option<Vec<u8>>, blob: Vec<u8>) -> MemStore {
        let index = match &meta {
            Some(bytes) => SectorIndex::from_meta(bytes, sectors, 0).unwrap(),
            None => SectorIndex::new(sectors, 0),
        };
        MemStore { index, blob, file_pos: 0, meta, seeks: 0 }
    }

    fn reopen(&self, sectors: usize) -> MemStore {
        MemStore::open(sectors, self.meta.clone(), self.blob.clone())
    }

    fn position(&mut self, access: Access) {
        if access.seek {
            self.file_pos = access.offset;
            self.seeks += 1;
        }
        assert_eq!(self.file_pos, access.offset);
    }
}

impl Layer for MemStore {
    fn read(&mut self, sector: u32, buffer: &mut [u8; SECTOR_SIZE]) {
        match self.index.begin_read(sector) {
            None => *buffer = [0; SECTOR_SIZE],
            Some(access) => {
                self.position(access);
                let at = self.file_pos as usize;
                buffer.copy_from_slice(&self.blob[at..at + SECTOR_SIZE]);
                self.file_pos += SECTOR_SIZE as u64;
                assert_eq!(self.file_pos, self.index.pos());
            }
        }
    }

    fn write(&mut self, sector: u32, buffer: &[u8; SECTOR_SIZE]) {
        if !self.index.is_placed(sector) {
            self.file_pos = self.blob.len() as u64;
            self.index.place(sector, self.file_pos).unwrap();
        }
        let access = self.index.begin_write(sector);
        self.position(access);
        let at = self.file_pos as usize;
        if self.blob.len() < at + SECTOR_SIZE {
            self.blob.resize(at + SECTOR_SIZE, 0);
        }
        self.blob[at..at + SECTOR_SIZE].copy_from_slice(buffer);
        self.file_pos += SECTOR_SIZE as u64;
        assert_eq!(self.file_pos, self.index.pos());
    }

    fn flush(&mut self) {
        self.meta = Some(self.index.meta_bytes());
    }
}

#[test]
fn create_write_read_test() {
    let mut sector_sec: Vec<u32> = (0..4096).collect();
    sector_sec.shuffle(&mut thread_rng());

    let mut layer = MemStore::open(sector_sec.len(), None, Vec::new());
    let mut buffer: [u8; SECTOR_SIZE] = [0; SECTOR_SIZE];
    let mut index = 0;
    for sector in sector_sec.clone() {
        assert_eq!(layer.index.offset(sector), NO_VALUE);
        for i in 0..SECTOR_SIZE {
            buffer[i] = sector as u8;
        }
        layer.write(sector, &buffer);
        assert_eq!(layer.index.offset(sector) as usize, index * SECTOR_SIZE);
        index += 1;
    }
    layer.flush();

    let mut layer = layer.reopen(sector_sec.len());
    let mut buffer: [u8; SECTOR_SIZE] = [0; SECTOR_SIZE];
    let mut index = 0;
    for sector in sector_sec.clone() {
        assert_eq!(layer.index.offset(sector) as usize, index * SECTOR_SIZE);
        layer.read(sector, &mut buffer);
        for i in 0..SECTOR_SIZE {
            assert_eq!(buffer[i], sector as u8);
        }
        index += 1;
    }
    layer.flush();
}

#[test]
fn small_in_order_fill() {
    let mut layer = MemStore::open(16, None, Vec::new());
    for i in 0..16u32 {
        let mut buf = [0u8; SECTOR_SIZE];
        buf[0] = i as u8;
        layer.write(i, &buf);
        assert_eq!(layer.index.offset(i) as usize, i as usize * SECTOR_SIZE);
    }
    layer.flush();
    let mut layer = layer.reopen(16);
    for i in 0..16u32 {
        let mut buf = [0xffu8; SECTOR_SIZE];
        layer.read(i, &mut buf);
        assert_eq!(buf[0], i as u8);
        assert!(buf[1..].iter().all(|b| *b == 0));
    }
}

#[test]
fn sparse_read() {
    let mut layer = MemStore::open(1024, None, Vec::new());
    layer.write(7, &[0x55; SECTOR_SIZE]);
    let mut buf = [0xaau8; SECTOR_SIZE];
    layer.read(0, &mut buf);
    assert_eq!(buf, [0u8; SECTOR_SIZE]);
    layer.read(7, &mut buf);
    assert_eq!(buf, [0x55u8; SECTOR_SIZE]);
    layer.read(1023, &mut buf);
    assert_eq!(buf, [0u8; SECTOR_SIZE]);
}

#[test]
fn fresh_store_reads_zero() {
    let mut layer = MemStore::open(8, None, vec![0x11; 4 * SECTOR_SIZE]);
    for s in 0..8u32 {
        assert_eq!(layer.index.offset(s), NO_VALUE);
        let mut buf = [0x77u8; SECTOR_SIZE];
        layer.read(s, &mut buf);
        assert_eq!(buf, [0u8; SECTOR_SIZE]);
    }
    assert_eq!(layer.seeks, 0);
}

#[test]
fn write_then_read_round_trip() {
    let mut layer = MemStore::open(32, None, Vec::new());
    let mut data = [0u8; SECTOR_SIZE];
    for (i, b) in data.iter_mut().enumerate() {
        *b = (i * 7 + 3) as u8;
    }
    layer.write(19, &data);
    let mut buf = [0u8; SECTOR_SIZE];
    layer.read(19, &mut buf);
    assert_eq!(buf, data);
}

#[test]
fn rewrite_keeps_offset() {
    let mut layer = MemStore::open(32, None, Vec::new());
    layer.write(3, &[1; SECTOR_SIZE]);
    layer.write(9, &[2; SECTOR_SIZE]);
    let before = layer.index.offset(3);
    layer.write(3, &[5; SECTOR_SIZE]);
    assert_eq!(layer.index.offset(3), before);
    assert_eq!(layer.blob.len(), 2 * SECTOR_SIZE);
    let mut buf = [0u8; SECTOR_SIZE];
    layer.read(3, &mut buf);
    assert_eq!(buf, [5u8; SECTOR_SIZE]);
    layer.read(9, &mut buf);
    assert_eq!(buf, [2u8; SECTOR_SIZE]);
}

#[test]
fn reopen_after_flush_reads_back() {
    let mut layer = MemStore::open(64, None, Vec::new());
    layer.write(40, &[0x3c; SECTOR_SIZE]);
    layer.flush();
    let mut layer = layer.reopen(64);
    let mut buf = [0u8; SECTOR_SIZE];
    layer.read(40, &mut buf);
    assert_eq!(buf, [0x3cu8; SECTOR_SIZE]);
}

#[test]
fn reopen_recovers_exactly_flushed_state() {
    let mut layer = MemStore::open(16, None, Vec::new());
    layer.write(2, &[1; SECTOR_SIZE]);
    layer.write(5, &[2; SECTOR_SIZE]);
    layer.flush();
    let flushed: Vec<u32> = (0..16).map(|s| layer.index.offset(s)).collect();
    layer.write(11, &[3; SECTOR_SIZE]);
    let reopened = layer.reopen(16);
    let recovered: Vec<u32> = (0..16).map(|s| reopened.index.offset(s)).collect();
    assert_eq!(recovered, flushed);
}

#[test]
fn meta_is_four_bytes_per_sector() {
    for n in [0usize, 1, 16, 1000] {
        let mut layer = MemStore::open(n, None, Vec::new());
        if n > 0 {
            layer.write(0, &[9; SECTOR_SIZE]);
        }
        layer.flush();
        assert_eq!(layer.meta.as_ref().unwrap().len(), n * 4);
    }
}

#[test]
fn meta_bytes_are_little_endian() {
    let mut meta = vec![0u8; 8];
    meta[0..4].copy_from_slice(&0x0403_0201u32.to_le_bytes());
    meta[4..8].copy_from_slice(&NO_VALUE.to_le_bytes());
    let index = SectorIndex::from_meta(&meta, 2, 0).unwrap();
    assert_eq!(index.offset(0), 0x0403_0201);
    assert_eq!(index.offset(1), NO_VALUE);
    assert_eq!(index.meta_bytes(), vec![1, 2, 3, 4, 255, 255, 255, 255]);
}

#[test]
fn meta_longer_than_table_is_accepted() {
    let meta = vec![0u8, 2, 0, 0, 7, 7, 7];
    let index = SectorIndex::from_meta(&meta, 1, 0).unwrap();
    assert_eq!(index.offset(0), 512);
    assert_eq!(index.sectors(), 1);
}

#[test]
fn short_meta_is_refused() {
    let meta = vec![0u8; 15];
    assert_eq!(SectorIndex::from_meta(&meta, 4, 0).err(), Some(LayerError::ShortMeta));
    assert!(SectorIndex::from_meta(&meta, 3, 0).is_ok());
}

#[test]
fn full_blob_is_refused() {
    let mut index = SectorIndex::new(4, 0);
    assert_eq!(index.place(1, NO_VALUE as u64), Err(LayerError::BlobFull));
    assert_eq!(index.offset(1), NO_VALUE);
    assert_eq!(index.place(1, NO_VALUE as u64 - 1), Ok(()));
    assert_eq!(index.offset(1), NO_VALUE - 1);
    assert_eq!(index.pos(), NO_VALUE as u64 - 1);
}

#[test]
fn fresh_offsets_follow_write_order() {
    let order = [5u32, 0, 7, 2, 6];
    let mut layer = MemStore::open(8, None, Vec::new());
    for (i, s) in order.iter().enumerate() {
        layer.write(*s, &[*s as u8; SECTOR_SIZE]);
        assert_eq!(layer.index.offset(*s) as usize, i * SECTOR_SIZE);
    }
}

#[test]
fn sequential_access_skips_seeks() {
    let mut layer = MemStore::open(8, None, Vec::new());
    for s in 0..4u32 {
        layer.write(s, &[s as u8; SECTOR_SIZE]);
    }
    assert_eq!(layer.seeks, 0);
    let mut buf = [0u8; SECTOR_SIZE];
    layer.read(0, &mut buf);
    assert_eq!(layer.seeks, 1);
    for s in 1..4u32 {
        layer.read(s, &mut buf);
        assert_eq!(buf, [s as u8; SECTOR_SIZE]);
    }
    assert_eq!(layer.seeks, 1);
    assert_eq!(layer.index.pos(), 4 * SECTOR_SIZE as u64);
}

#[test]
fn begin_read_plans_seek_only_when_needed() {
    let mut index = SectorIndex::new(4, 0);
    assert_eq!(index.begin_read(2), None);
    index.place(2, 0).unwrap();
    assert_eq!(index.begin_write(2), Access { offset: 0, seek: false });
    assert_eq!(index.pos(), 512);
    assert_eq!(index.begin_read(2), Some(Access { offset: 0, seek: true }));
    assert_eq!(index.pos(), 512);
    assert_eq!(index.begin_read(2), Some(Access { offset: 0, seek: true }));
}

#[test]
fn read_ahead_span_concatenates_sectors() {
    let mut layer = MemStore::open(64, None, Vec::new());
    layer.write(42, &[0xab; SECTOR_SIZE]);
    let bytes = serve_read(&mut layer, 64, 42, 1).unwrap();
    assert_eq!(bytes, vec![0xab; SECTOR_SIZE]);
    let bytes = serve_read(&mut layer, 64, 40, 4).unwrap();
    assert_eq!(bytes.len(), 4 * SECTOR_SIZE);
    assert_eq!(&bytes[0..SECTOR_SIZE], &[0u8; SECTOR_SIZE][..]);
    assert_eq!(&bytes[SECTOR_SIZE..2 * SECTOR_SIZE], &[0u8; SECTOR_SIZE][..]);
    assert_eq!(&bytes[2 * SECTOR_SIZE..3 * SECTOR_SIZE], &[0xabu8; SECTOR_SIZE][..]);
    assert_eq!(&bytes[3 * SECTOR_SIZE..4 * SECTOR_SIZE], &[0u8; SECTOR_SIZE][..]);
}

#[test]
fn read_ahead_outside_store_is_refused() {
    let mut layer = MemStore::open(64, None, Vec::new());
    assert_eq!(serve_read(&mut layer, 64, 62, 3), None);
    assert_eq!(serve_read(&mut layer, 64, 62, 2).map(|b| b.len()), Some(2 * SECTOR_SIZE));
    assert_eq!(serve_read(&mut layer, 1 << 40, u32::MAX, 2), None);
    assert_eq!(serve_read(&mut layer, 64, 5, 0), Some(Vec::new()));
}

#[test]
fn write_outside_store_is_dropped() {
    let mut layer = MemStore::open(8, None, Vec::new());
    assert!(!serve_write(&mut layer, 8, 8, &[1; SECTOR_SIZE]));
    assert!(layer.blob.is_empty());
    assert!(serve_write(&mut layer, 8, 7, &[1; SECTOR_SIZE]));
    let mut buf = [0u8; SECTOR_SIZE];
    layer.read(7, &mut buf);
    assert_eq!(buf, [1u8; SECTOR_SIZE]);
}
