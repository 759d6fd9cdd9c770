use ppa6::backend::Backend;
use ppa6::printer::Printer;
use ppa6::PrinterError;

/// A transport whose sends always fail.
struct BrokenWire;

impl Backend for BrokenWire {
    fn send(&mut self, _buf: &[u8], _timeout_ms: u64) -> Result<(), PrinterError> {
        Err(PrinterError::Transport)
    }

    fn recv(&mut self, _buf: &mut Vec<u8>, _timeout_ms: u64) -> Result<usize, PrinterError> {
        Err(PrinterError::Transport)
    }

    fn wait(&mut self, _ms: u64) {}

    fn claim(&mut self) -> Result<(), PrinterError> {
        Ok(())
    }

    fn release(&mut self) -> Result<(), PrinterError> {
        Ok(())
    }
}

/// A transport that is always claimed by someone else.
struct BusyDevice;

impl Backend for BusyDevice {
    fn send(&mut self, _buf: &[u8], _timeout_ms: u64) -> Result<(), PrinterError> {
        Ok(())
    }

    fn recv(&mut self, _buf: &mut Vec<u8>, _timeout_ms: u64) -> Result<usize, PrinterError> {
        Ok(0)
    }

    fn wait(&mut self, _ms: u64) {}

    fn claim(&mut self) -> Result<(), PrinterError> {
        Err(PrinterError::Claim)
    }

    fn release(&mut self) -> Result<(), PrinterError> {
        Ok(())
    }
}

#[test]
fn transport_failures_propagate_verbatim() {
    let mut p = Printer::new(BrokenWire);
    assert_eq!(p.reset(), Err(PrinterError::Transport));
    assert_eq!(p.get_ip(), Err(PrinterError::Transport));
    assert_eq!(p.get_battery(), Err(PrinterError::Transport));
    assert_eq!(p.print_text("hello"), Err(PrinterError::Transport));
    assert_eq!(p.print_image(&[0u8; 48], 384), Err(PrinterError::Transport));
    assert_eq!(p.push(1), Err(PrinterError::Transport));
}

#[test]
fn busy_device_surfaces_claim_error() {
    let mut p = Printer::new(BusyDevice);
    assert_eq!(p.reset(), Err(PrinterError::Claim));
    assert_eq!(p.set_concentration(1), Err(PrinterError::Claim));
    assert_eq!(p.print_image(&[0u8; 48], 384), Err(PrinterError::Claim));
}

#[test]
fn argument_validation_comes_before_claim() {
    // Even on a busy device, invalid arguments are rejected as such,
    // before any claim is attempted.
    let mut p = Printer::new(BusyDevice);
    assert_eq!(p.set_concentration(3), Err(PrinterError::InvalidArgument));
    assert_eq!(p.print_image(&[0u8; 48], 0), Err(PrinterError::InvalidArgument));
}
