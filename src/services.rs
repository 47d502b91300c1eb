use vstd::prelude::*;

verus! {

/// Attribute indices of the battery service.
pub enum BatteryService {
    IdxBatterySvc,
    IdxCharBatteryLevel,
    IdxCharBatteryLevelVal,
    IdxCharBatteryLevelCfg,
    BatteryLastIdx,
}

/// Attribute indices of the LED and button service.
pub enum LEDButtonService {
    IdxLedButtonSvc,
    IdxCharLed,
    IdxCharLedVal,
    IdxCharButton,
    IdxCharButtonVal,
    IdxCharButtonCfg,
    IdxCharUnknown,
    IdxCharUnknownVal,
    IdxCharUpdateRequest,
    IdxCharUpdateRequestVal,
    IdxCharFwVersion,
    IdxCharFwVersionVal,
    LedButtonLastIdx,
}

/// Attribute indices of the certificate service.
pub enum CertificateService {
    IdxCertSvc,
    IdxCharCentralToSfida,
    IdxCharCentralToSfidaVal,
    IdxCharSfidaCommands,
    IdxCharSfidaCommandsVal,
    IdxCharSfidaCommandsCfg,
    IdxCharSfidaToCentral,
    IdxCharSfidaToCentralVal,
    CertLastIdx,
}

} // verus!
