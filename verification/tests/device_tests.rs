use switch_usb_host::device::{
    is_switch_device, pick_endpoints, ConnectedIds, EpDesc, EpDirection, SwitchInitError,
    UsbClient,
};

#[test]
fn allow_list() {
    assert!(is_switch_device(0x16C0, 0x27E2));
    assert!(is_switch_device(0x057E, 0x3000));
    assert!(!is_switch_device(0x16C0, 0x3000));
    assert!(!is_switch_device(0x057E, 0x27E2));
    assert!(!is_switch_device(0x0000, 0x0000));
}

#[test]
fn client_flags() {
    assert_eq!(UsbClient::try_from("t"), Ok(UsbClient::Tinfoil));
    assert_eq!(UsbClient::try_from("s"), Ok(UsbClient::Sphaira));
    assert_eq!(UsbClient::try_from("x"), Err(()));
    assert_eq!(UsbClient::default(), UsbClient::Tinfoil);
    assert_eq!(UsbClient::Sphaira.name(), "Sphaira");
    assert_eq!(UsbClient::Tinfoil.name(), "Tinfoil");
}

#[test]
fn each_device_id_is_claimed_once() {
    let mut ids = ConnectedIds::new();
    assert!(!ids.contains(7));
    assert!(ids.claim(7));
    assert!(ids.contains(7));
    assert!(!ids.claim(7), "a second claim of the same identifier fails");
    assert!(ids.claim(8));
    assert!(!ids.claim(8));
}

#[test]
fn endpoint_selection_takes_the_first_of_each_direction() {
    let eps = vec![
        EpDesc { direction: EpDirection::In, address: 0x81 },
        EpDesc { direction: EpDirection::Out, address: 0x01 },
        EpDesc { direction: EpDirection::Out, address: 0x02 },
        EpDesc { direction: EpDirection::In, address: 0x82 },
    ];
    assert_eq!(pick_endpoints(&eps).expect("both directions present"), (0x01, 0x81));
}

#[test]
fn missing_direction_is_an_error() {
    let eps = vec![EpDesc { direction: EpDirection::Out, address: 0x01 }];
    assert!(matches!(pick_endpoints(&eps), Err(SwitchInitError::EpNotFound)));
    let none: Vec<EpDesc> = Vec::new();
    assert!(matches!(pick_endpoints(&none), Err(SwitchInitError::EpNotFound)));
}
