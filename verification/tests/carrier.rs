use ax25_node_core::sdl::carrier::{AlwaysClear, CarrierSense};

#[derive(Debug, Clone, Copy)]
struct FixedCarrier(Option<bool>);
impl CarrierSense for FixedCarrier {
    fn channel_busy(&self) -> Option<bool> {
        self.0
    }
}

#[test]
fn definite_busy_is_the_only_thing_that_defers() {
    assert!(!FixedCarrier(Some(true)).is_clear(), "busy defers");
    assert!(FixedCarrier(Some(false)).is_clear(), "idle is clear");
    assert!(FixedCarrier(None).is_clear(), "unknown fails open (clear)");
}

#[test]
fn always_clear_is_clear() {
    assert_eq!(AlwaysClear.channel_busy(), Some(false));
    assert!(AlwaysClear.is_clear());
}
