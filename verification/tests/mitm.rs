use api_studio::capture::CaptureConfig;
use api_studio::mitm::{MitmDumpEngine, VersionOutput};

#[test]
fn mitm_engine_paths_and_arguments() {
    let engine = MitmDumpEngine::new("/addon/capture.py", "/conf");
    assert_eq!(engine.executable(), "mitmdump");
    assert_eq!(engine.certificate_path(), "/conf/mitmproxy-ca-cert.pem");
    let engine = engine.with_executable("/opt/bin/mitmdump");
    assert_eq!(engine.executable(), "/opt/bin/mitmdump");
    assert_eq!(engine.conf_dir(), "/conf");
    let config = CaptureConfig { session_id: "s1".into(), listen_host: "127.0.0.1".into(), listen_port: 8080 };
    assert_eq!(
        engine.start_arguments(&config),
        vec![
            "--quiet", "--listen-host", "127.0.0.1", "--listen-port", "8080", "--set", "confdir=/conf", "--set",
            "block_global=false", "-s", "/addon/capture.py",
        ]
    );
    let handle = MitmDumpEngine::handle(1700, &config);
    assert_eq!(handle.id, "mitm-1700");
    assert_eq!(handle.session_id, "s1");
    assert_eq!(engine.addon_missing().message, "Capture addon not found at /addon/capture.py");
}

#[test]
fn mitm_engine_reports_its_version_or_why_it_cannot_run() {
    let ok = MitmDumpEngine::capabilities(Ok(VersionOutput {
        success: true,
        stdout: b"  Mitmproxy: 10.1.0 \nPython: 3.12\n".to_vec(),
        stderr: vec![],
    }))
    .unwrap();
    assert_eq!(ok.engine_name, "mitmdump");
    assert_eq!(ok.engine_version.as_deref(), Some("Mitmproxy: 10.1.0"));
    let blank = MitmDumpEngine::capabilities(Ok(VersionOutput { success: true, stdout: b"\nx".to_vec(), stderr: vec![] }))
        .unwrap();
    assert_eq!(blank.engine_version, None);
    let failed =
        MitmDumpEngine::capabilities(Ok(VersionOutput { success: false, stdout: vec![], stderr: b" boom \n".to_vec() }))
            .unwrap_err();
    assert_eq!(failed.code, "mitmdump_version_failed");
    assert_eq!(failed.message, "boom");
    let missing = MitmDumpEngine::capabilities(Err("not found".into())).unwrap_err();
    assert_eq!(missing.code, "mitmdump_unavailable");
    assert_eq!(missing.message, "Unable to launch mitmdump: not found");
    assert_eq!(MitmDumpEngine::stop_failed("gone").message, "Unable to stop mitmdump: gone");
    assert_eq!(MitmDumpEngine::start_failed("no").code, "mitmdump_start_failed");
}
