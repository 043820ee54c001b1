use caldir_provider_proton::remote_config::{ConfigParams, ParamValue, ProtonRemoteConfig};

#[test]
fn round_trips() {
    let config = ProtonRemoteConfig::new("alice@proton.me", "calendar-id");
    let restored =
        ProtonRemoteConfig::try_from(&config.clone().into_remote_config_params()).unwrap();
    assert_eq!(restored.proton_account, config.proton_account);
    assert_eq!(restored.proton_calendar, config.proton_calendar);
}

#[test]
fn missing_fields_are_named() {
    let mut params = ConfigParams::new();
    let error = ProtonRemoteConfig::try_from(&params).unwrap_err();
    assert_eq!(error.message(), "Missing required field: proton_account");
    params.insert("proton_account".to_string(), ParamValue::Text("alice@proton.me".to_string()));
    params.insert("proton_calendar".to_string(), ParamValue::Other);
    let error = ProtonRemoteConfig::try_from(&params).unwrap_err();
    assert_eq!(error.message(), "Missing required field: proton_calendar");
    params.insert("proton_calendar".to_string(), ParamValue::Text("cal".to_string()));
    let config = ProtonRemoteConfig::try_from(&params).unwrap();
    assert_eq!(config.proton_calendar, "cal");
    assert_eq!(params.get_text("proton_account").as_deref(), Some("alice@proton.me"));
    assert_eq!(params.get_text("other"), None);
}
