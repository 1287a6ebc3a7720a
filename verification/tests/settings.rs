use softphone::config::{AudioSettings, Config, ConnectionSettings, TransportType};
use softphone::ui::{dial, UiCommand};

#[test]
fn defaults_bind_udp_on_port_5060() {
    let c = Config::default();
    assert!(c.accounts.is_empty());
    assert_eq!(c.connection.bind_address, "0.0.0.0:5060");
    assert_eq!(c.connection.transport_type, TransportType::Udp);
    assert!(c.audio.input_device.is_none());
    assert!(c.audio.output_device.is_none());
    assert_eq!(ConnectionSettings::default().bind_address, "0.0.0.0:5060");
    assert!(AudioSettings::default().output_device.is_none());
    assert_eq!(TransportType::default(), TransportType::Udp);
}

#[test]
fn dialling_records_the_destination() {
    let mut history: Vec<String> = Vec::new();
    assert!(dial(&String::new(), &mut history).is_none());
    assert!(history.is_empty());
    match dial(&"bob".to_string(), &mut history) {
        Some(UiCommand::Invite(d)) => assert_eq!(d, "bob"),
        _ => panic!("expected an invite"),
    }
    assert_eq!(history, vec!["bob".to_string()]);
}
