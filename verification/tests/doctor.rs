use api_studio::capture::{connection_doctor_report, pending_rollback, DoctorStatus};
use api_studio::model::{Device, DeviceCapabilities, DevicePlatform};
use api_studio::secret::SecretStore;

fn device(state: &str) -> Device {
    Device {
        schema_version: 1,
        id: "ios:x".into(),
        platform: DevicePlatform::Ios,
        name: "iPhone".into(),
        os_version: None,
        state: state.into(),
        capabilities: DeviceCapabilities { can_install_ca: true, can_auto_route_proxy: false, can_target_process: false },
    }
}

#[test]
fn doctor_reports_only_interrupted_journals_as_pending() {
    let active = pending_rollback(true, true);
    let report = connection_doctor_report(None, None, Err("missing".into()), None, active, false);
    assert!(!report.pending_rollback);
    let interrupted = pending_rollback(false, true);
    let report = connection_doctor_report(None, None, Err("missing".into()), None, interrupted, false);
    assert!(report.pending_rollback);
    assert_eq!(report.checks[4].status, DoctorStatus::Warning);
}

#[test]
fn doctor_counts_running_devices() {
    let report = connection_doctor_report(
        Some(Ok(vec![device("Booted"), device("Shutdown")])),
        Some(Err("adb failed".into())),
        Ok(("mitmdump".into(), Some("11.0".into()))),
        Some("/tmp/ca.pem".into()),
        false,
        SecretStore.is_available(),
    );
    assert_eq!(report.checks.len(), 6);
    assert_eq!(report.booted_ios_count, 1);
    assert_eq!(report.android_emulator_count, 0);
    assert_eq!(report.checks[2].status, DoctorStatus::Pass);
    assert_eq!(report.checks[3].status, DoctorStatus::Pass);
    assert_eq!(report.checks[5].status, DoctorStatus::Warning);
    assert_eq!(report.capture_executable.as_deref(), Some("mitmdump"));
}

#[test]
fn the_portable_secret_store_refuses_everything() {
    let store = SecretStore;
    assert!(!store.is_available());
    assert_eq!(store.get("ref").unwrap_err().code, "secure_store_unsupported");
    assert_eq!(store.set("ref", "v").unwrap_err().to_string(), "secure_store_unsupported: Native secure environment-variable storage is currently implemented for macOS.");
    assert!(store.delete("ref").is_err());
}

#[test]
fn doctor_checks_carry_the_original_wording() {
    let report = connection_doctor_report(None, None, Ok(("mitmdump".into(), Some("11.0".into()))), None, true, false);
    assert_eq!(report.checks[2].detail, "mitmdump is available (11.0).");
    assert_eq!(report.checks[3].title, "Capture certificate");
    assert_eq!(report.checks[3].action.as_deref(), Some("Start a capture once to generate the isolated local CA."));
    assert_eq!(report.checks[4].detail, "A previous connection left recovery state on disk.");
    assert_eq!(
        report.checks[4].action.as_deref(),
        Some("Use Recover on the Connect screen before starting another capture.")
    );
    assert_eq!(report.checks[5].detail, "Native secure secret storage is not available in this desktop build.");
    let calm = connection_doctor_report(None, None, Err("gone".into()), Some("/ca.pem".into()), false, false);
    assert_eq!(calm.checks[2].detail, "gone");
    assert_eq!(calm.checks[3].detail, "Local capture CA exists at /ca.pem.");
    assert_eq!(calm.checks[4].detail, "No interrupted connection changes are pending.");
    assert!(calm.checks[4].action.is_none());
}
