use embedded_hal::blocking::i2c::{Write, WriteRead};
use ssd1306_display::ssd1306::Ssd1306;
use std::cell::RefCell;
use std::rc::Rc;
use ssd1306_display::transport::Transport;

/// A bus of `embedded-hal` that keeps what is written to it and answers no
/// device but the one at `present`.
struct Wire {
    present: u8,
    written: Rc<RefCell<Vec<Vec<u8>>>>,
}

#[derive(Debug, PartialEq)]
struct NoAcknowledge(u8);

impl Write for Wire {
    type Error = NoAcknowledge;

    fn write(&mut self, address: u8, bytes: &[u8]) -> Result<(), NoAcknowledge> {
        if address != self.present {
            return Err(NoAcknowledge(address));
        }
        self.written.borrow_mut().push(bytes.to_vec());
        Ok(())
    }
}

impl WriteRead for Wire {
    type Error = NoAcknowledge;

    fn write_read(
        &mut self,
        address: u8,
        bytes: &[u8],
        buffer: &mut [u8],
    ) -> Result<(), NoAcknowledge> {
        self.write(address, bytes)?;
        for byte in buffer.iter_mut() {
            *byte = 0;
        }
        Ok(())
    }
}

/// Hands a bus of `embedded-hal` to the driver.
struct OnHal<I2C>(I2C);

impl<I2C, E> Transport for OnHal<I2C>
where
    I2C: Write<Error = E> + WriteRead<Error = E>,
{
    type Error = E;

    fn write(&mut self, address: u8, bytes: &[u8]) -> Result<(), E> {
        self.0.write(address, bytes)
    }

    fn write_then_read(&mut self, address: u8, bytes: &[u8], buffer: &mut [u8]) -> Result<(), E> {
        self.0.write_read(address, bytes, buffer)
    }
}

#[test]
fn driver_runs_on_an_embedded_hal_bus() {
    let written = Rc::new(RefCell::new(Vec::new()));
    let wire = Wire { present: 0x3C, written: written.clone() };
    let mut display = Ssd1306::new(OnHal(wire), 0x3C);
    assert_eq!(display.setup(), Ok(()));
    assert_eq!(display.draw_checkerboard(), Ok(()));
    let written = written.borrow();
    assert_eq!(written.len(), 164 + 134);
    assert_eq!(written[0], vec![0x00, 0xAE]);
    assert_eq!(written[29], vec![0x00, 0xAF]);
    assert_eq!(written[164 + 7], vec![0x40, 0x00, 0x08, 0x1C, 0x08, 0xFF, 0x08, 0x1C, 0x08]);
}

#[test]
fn absent_device_fails_setup_at_the_first_command() {
    let written = Rc::new(RefCell::new(Vec::new()));
    let wire = Wire { present: 0x3D, written: written.clone() };
    let mut display = Ssd1306::new(OnHal(wire), 0x3C);
    assert_eq!(display.setup(), Err(NoAcknowledge(0x3C)));
    assert!(written.borrow().is_empty());
}
