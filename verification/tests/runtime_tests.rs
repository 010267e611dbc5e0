use o_::binengine::BinEngine;
use o_::error::{JSErrorKind, JSResult};
use o_::fs::{access_sync, FsError, IoKind, StatInfo, F_OK, O_RDWR, R_OK, W_OK, X_OK};
use o_::jstd::bootstrap_script;
use o_::process::{arch, get_process_info, platform, ppid};

#[test]
fn platform_and_arch_names() {
    assert_eq!(platform("macos"), "darwin");
    assert_eq!(platform("linux"), "linux");
    assert_eq!(platform("windows"), "win32");
    assert_eq!(platform("freebsd"), "unknown");
    assert_eq!(arch("x86_64"), "x64");
    assert_eq!(arch("aarch64"), "arm64");
    assert_eq!(arch("x86"), "ia32");
    assert_eq!(arch("riscv64"), "unknown");
    assert_eq!(ppid(), 0);
}

#[test]
fn process_info() {
    let info = get_process_info(7, "linux", "aarch64", "0.1.0", "/w".into(), "/bin/o-".into(), vec!["o-".into()]);
    assert_eq!(info.pid, 7);
    assert_eq!(info.platform, "linux");
    assert_eq!(info.arch, "arm64");
    assert_eq!(info.version, "0.1.0");
    assert_eq!(info.cwd, "/w");
    assert_eq!(info.exec_path, "/bin/o-");
    assert_eq!(info.argv, vec!["o-".to_string()]);
}

#[test]
fn fs_errors() {
    assert!(access_sync("/x", true).is_ok());
    match access_sync("/x", false) {
        Err(e) => assert_eq!(e.message(), "ENOENT: no such file or directory, '/x'"),
        Ok(()) => panic!("expected an error"),
    }
    assert_eq!(FsError::PermissionDenied("/r".into()).message(), "EACCES: permission denied, '/r'");
    assert_eq!(FsError::Io("disk full".into()).message(), "disk full");
    assert_eq!(FsError::Utf8("bad utf-8".into()).message(), "bad utf-8");
    assert!(matches!(FsError::from_io(IoKind::NotFound, "m".into()), FsError::NotFound(m) if m == "m"));
    assert!(matches!(FsError::from_io(IoKind::PermissionDenied, "m".into()), FsError::PermissionDenied(_)));
    assert!(matches!(FsError::from_io(IoKind::Other, "m".into()), FsError::Io(_)));
    let st = StatInfo { is_file: true, is_dir: false, is_symlink: false, size: 3 };
    assert!(st.is_file && st.size == 3);
    assert_eq!((F_OK, R_OK, W_OK, X_OK, O_RDWR), (0, 4, 2, 1, 2));
}

#[test]
fn bootstrap_defines_console() {
    let s = bootstrap_script();
    assert!(s.starts_with("\n(() => {\n  const g = globalThis;"));
    assert!(s.contains("log: bind('__jstd_console_log'),"));
    assert!(s.contains("g.println = bind('__jstd_println', g.print);"));
}

#[test]
fn bin_engine_outcomes() {
    let e = BinEngine::new("/bin/js".into());
    assert_eq!(e.path(), "/bin/js");
    assert_eq!(e.command_args("1+1", "a.js"), vec!["-c".to_string(), "a.js".to_string(), "1+1".to_string()]);
    match e.finish("1+1", "a.js", true, "exit status: 0", b"", b"2\n".to_vec()) {
        Ok(JSResult::String(s)) => assert_eq!(s, "2\n"),
        Err(_) => panic!("expected output"),
    }
    match e.finish("x", "a.js", false, "exit status: 3", b" boom \n", Vec::new()) {
        Err(err) => {
            assert_eq!(err.kind(), JSErrorKind::Runtime);
            assert_eq!(err.message(), "toolchain binary `/bin/js` failed: boom");
            assert_eq!(err.filename(), Some("a.js"));
            assert_eq!(err.source_snippet(), Some("x"));
        }
        Ok(_) => panic!("expected a failure"),
    }
    match e.finish("x", "a.js", false, "exit status: 3", b"  ", Vec::new()) {
        Err(err) => assert_eq!(err.message(), "toolchain binary `/bin/js` exited with status exit status: 3"),
        Ok(_) => panic!("expected a failure"),
    }
    match e.finish("x", "a.js", true, "", b"", vec![0xff]) {
        Err(err) => {
            assert_eq!(err.kind(), JSErrorKind::Internal);
            assert!(err.message().starts_with("toolchain binary `/bin/js` returned invalid UTF-8 output: "));
        }
        Ok(_) => panic!("expected a failure"),
    }
    let spawn = e.spawn_error("not found", "x", "a.js");
    assert_eq!(spawn.kind(), JSErrorKind::Internal);
    assert_eq!(spawn.message(), "failed to execute toolchain binary `/bin/js`: not found");
}

#[test]
fn timer_bookkeeping() {
    let mut t = o_::timers::TimerManager::default();
    t.set_timer(1);
    t.set_timer(2);
    t.clear_timeout(2);
    t.clear_interval(7);
    t.clear_all();
    let mut fresh = o_::timers::TimerManager::new();
    fresh.set_timer(3);
    fresh.clear_all();
}
