use ssd1306_display::ssd1306::Ssd1306;
use ssd1306_display::transport::Transport;

/// A bus that keeps what it is handed and refuses the write with the given
/// number, counted from one.
struct Recorder {
    writes: Vec<(u8, Vec<u8>)>,
    refuse: Option<usize>,
}

#[derive(Debug, PartialEq)]
struct Refused(usize);

impl Recorder {
    fn new() -> Recorder {
        Recorder { writes: Vec::new(), refuse: None }
    }

    fn refusing(nth: usize) -> Recorder {
        Recorder { writes: Vec::new(), refuse: Some(nth) }
    }
}

impl Transport for &mut Recorder {
    type Error = Refused;

    fn write(&mut self, address: u8, bytes: &[u8]) -> Result<(), Refused> {
        self.writes.push((address, bytes.to_vec()));
        if self.refuse == Some(self.writes.len()) {
            Err(Refused(self.writes.len()))
        } else {
            Ok(())
        }
    }

    fn write_then_read(
        &mut self,
        _address: u8,
        _bytes: &[u8],
        _buffer: &mut [u8],
    ) -> Result<(), Refused> {
        unreachable!()
    }
}

fn payload(len: usize) -> Vec<u8> {
    (0..len).map(|i| (i * 7 + 3) as u8).collect()
}

#[test]
fn command_is_one_write_of_prefix_and_byte() {
    for c in 0..=255u8 {
        let mut bus = Recorder::new();
        let mut display = Ssd1306::new(&mut bus, 0x3C);
        assert_eq!(display.write_command(c), Ok(()));
        assert_eq!(bus.writes, vec![(0x3C, vec![0x00, c])]);
    }
}

#[test]
fn command_goes_to_the_address_given() {
    let mut bus = Recorder::new();
    let mut display = Ssd1306::new(&mut bus, 0x3D);
    assert_eq!(display.write_command(0xAF), Ok(()));
    assert_eq!(bus.writes, vec![(0x3D, vec![0x00, 0xAF])]);
}

#[test]
fn command_returns_the_error_of_the_bus() {
    let mut bus = Recorder::refusing(1);
    let mut display = Ssd1306::new(&mut bus, 0x3C);
    assert_eq!(display.write_command(0xAE), Err(Refused(1)));
    assert_eq!(bus.writes, vec![(0x3C, vec![0x00, 0xAE])]);
}

#[test]
fn empty_payload_sends_nothing() {
    let mut bus = Recorder::new();
    let mut display = Ssd1306::new(&mut bus, 0x3C);
    assert_eq!(display.write_data(&[]), Ok(()));
    assert!(bus.writes.is_empty());
}

#[test]
fn short_payload_is_one_frame() {
    let mut bus = Recorder::new();
    let mut display = Ssd1306::new(&mut bus, 0x3C);
    assert_eq!(display.write_data(&[1, 2, 3]), Ok(()));
    assert_eq!(bus.writes, vec![(0x3C, vec![0x40, 1, 2, 3])]);
}

#[test]
fn full_chunk_is_one_frame_of_seventeen_bytes() {
    let data = payload(16);
    let mut bus = Recorder::new();
    let mut display = Ssd1306::new(&mut bus, 0x3C);
    assert_eq!(display.write_data(&data), Ok(()));
    assert_eq!(bus.writes.len(), 1);
    assert_eq!(bus.writes[0].1.len(), 17);
    assert_eq!(bus.writes[0].1[0], 0x40);
    assert_eq!(&bus.writes[0].1[1..], &data[..]);
}

#[test]
fn seventeen_bytes_are_two_frames_without_padding() {
    let data = payload(17);
    let mut bus = Recorder::new();
    let mut display = Ssd1306::new(&mut bus, 0x3C);
    assert_eq!(display.write_data(&data), Ok(()));
    assert_eq!(bus.writes.len(), 2);
    assert_eq!(bus.writes[0].1.len(), 17);
    assert_eq!(bus.writes[1].1, vec![0x40, data[16]]);
}

#[test]
fn payload_is_cut_into_ceil_len_over_sixteen_frames() {
    for len in 0..100usize {
        let data = payload(len);
        let mut bus = Recorder::new();
        let mut display = Ssd1306::new(&mut bus, 0x3C);
        assert_eq!(display.write_data(&data), Ok(()));
        assert_eq!(bus.writes.len(), (len + 15) / 16);
        let mut joined: Vec<u8> = Vec::new();
        for (address, frame) in &bus.writes {
            assert_eq!(*address, 0x3C);
            assert!(frame.len() >= 2);
            assert!(frame.len() <= 17);
            assert_eq!(frame[0], 0x40);
            joined.extend_from_slice(&frame[1..]);
        }
        assert_eq!(joined, data);
    }
}

#[test]
fn forty_bytes_are_chunks_of_sixteen_sixteen_and_eight() {
    let data = payload(40);
    let mut bus = Recorder::new();
    let mut display = Ssd1306::new(&mut bus, 0x3C);
    assert_eq!(display.write_data(&data), Ok(()));
    let lengths: Vec<usize> = bus.writes.iter().map(|w| w.1.len()).collect();
    assert_eq!(lengths, vec![17, 17, 9]);
}

#[test]
fn data_stops_at_the_chunk_the_bus_refuses() {
    let data = payload(50);
    let mut bus = Recorder::refusing(2);
    let mut display = Ssd1306::new(&mut bus, 0x3C);
    assert_eq!(display.write_data(&data), Err(Refused(2)));
    assert_eq!(bus.writes.len(), 2);
    assert_eq!(&bus.writes[0].1[1..], &data[0..16]);
    assert_eq!(&bus.writes[1].1[1..], &data[16..32]);
}

#[test]
fn data_refused_on_the_last_chunk_still_fails() {
    let data = payload(33);
    let mut bus = Recorder::refusing(3);
    let mut display = Ssd1306::new(&mut bus, 0x3C);
    assert_eq!(display.write_data(&data), Err(Refused(3)));
    assert_eq!(bus.writes.len(), 3);
    assert_eq!(bus.writes[2].1, vec![0x40, data[32]]);
}

#[test]
fn writes_follow_one_another_on_the_same_bus() {
    let mut bus = Recorder::new();
    let mut display = Ssd1306::new(&mut bus, 0x3C);
    assert_eq!(display.write_command(0x21), Ok(()));
    assert_eq!(display.write_data(&[9, 8]), Ok(()));
    assert_eq!(display.write_command(0x22), Ok(()));
    assert_eq!(
        bus.writes,
        vec![(0x3C, vec![0x00, 0x21]), (0x3C, vec![0x40, 9, 8]), (0x3C, vec![0x00, 0x22])]
    );
}
