use api_studio::data_lock::{
    clear_failed, database_path, lock_content, lock_decision, lock_failed, lock_path, lsof_verdict, pgrep_verdict,
    stale_lock_pid, ToolExit,
};

fn exit(success: bool, code: Option<i32>) -> ToolExit {
    ToolExit { success, code, status: format!("exit status: {}", code.unwrap_or(-1)) }
}

#[test]
fn the_old_app_blocks_the_service() {
    assert_eq!(
        pgrep_verdict(&Ok(exit(true, Some(0)))).unwrap_err(),
        "Close the historical Mobile API Studio app before starting the local service."
    );
    assert!(pgrep_verdict(&Ok(exit(false, Some(1)))).is_ok());
    assert_eq!(
        pgrep_verdict(&Ok(exit(false, Some(2)))).unwrap_err(),
        "Cannot check whether the old app is running (pgrep status exit status: 2)."
    );
    assert_eq!(
        pgrep_verdict(&Err("not found".into())).unwrap_err(),
        "Cannot check whether the old app is running: not found"
    );
}

#[test]
fn a_database_open_elsewhere_blocks_the_service() {
    let db = database_path("/data");
    assert_eq!(db, "/data/app.db");
    assert_eq!(
        lsof_verdict(&db, &Ok((exit(true, Some(0)), false))).unwrap_err(),
        "/data/app.db is in use. Close the other process before starting the local service."
    );
    assert!(lsof_verdict(&db, &Ok((exit(true, Some(0)), true))).is_ok());
    assert!(lsof_verdict(&db, &Ok((exit(false, Some(1)), true))).is_ok());
    assert_eq!(
        lsof_verdict(&db, &Ok((exit(false, Some(3)), true))).unwrap_err(),
        "Cannot check whether /data/app.db is in use (lsof status exit status: 3)."
    );
    assert_eq!(
        lsof_verdict(&db, &Err("denied".into())).unwrap_err(),
        "Cannot check whether /data/app.db is in use: denied"
    );
}

#[test]
fn a_live_lock_refuses_and_a_stale_one_is_cleared() {
    assert_eq!(lock_path("/data/"), "/data/local-server.lock");
    assert_eq!(stale_lock_pid(" 4242\n"), Some(4242));
    assert_eq!(stale_lock_pid("+7"), Some(7));
    assert_eq!(stale_lock_pid("4294967296"), None);
    assert_eq!(stale_lock_pid("garbage"), None);
    assert_eq!(stale_lock_pid(&lock_content(123)), Some(123));
    assert_eq!(
        lock_decision(Some(4242), true, "/data").unwrap_err(),
        "Another local service is using /data (process 4242)."
    );
    assert!(lock_decision(Some(4242), false, "/data").is_ok());
    assert!(lock_decision(None, true, "/data").is_ok());
    assert_eq!(clear_failed("/data/local-server.lock", "busy"), "Cannot clear stale lock /data/local-server.lock: busy");
    assert_eq!(lock_failed("/data", "exists"), "Cannot lock /data: exists");
}
