use northstar::config::{
    check_console_url, default_device_mapper_timeout, default_event_buffer_size,
    default_loop_device_timeout, default_notification_buffer_size, default_token_validity, is_rw,
    Config, Error as ConfigError, Repository as RepositoryConfig, RepositoryType,
};
use northstar::mount::{bind_flags, check_path_covers, parse_options, MountOptions, MS_BIND, MS_NODEV, MS_NOEXEC, MS_NOSUID, MS_RDONLY, MS_REC};
use northstar::state::{ContainerState, StartStep, TransitionError};
use northstar::container::Container;
use northstar::error::{exit_action, Error, ExitAction, ExitStatus};
use northstar::frame::{frame, parse_frame};
use northstar::manifest::Manifest;
use northstar::name::Name;
use northstar::repository::{Npk, Repository};
use northstar::seccomp::{SyscallArgRule, SyscallRule};
use northstar::version::{Version, VersionReq};

fn manifest(name: &str, version: &str) -> Manifest {
    Manifest {
        name: Name::try_from(name).unwrap(),
        version: Version::parse(version).unwrap(),
        console: None,
        init: None,
        args: vec![],
        env: vec![],
        uid: 1000,
        gid: 1000,
        mounts: vec![],
        autostart: None,
        cgroups: None,
        network: None,
        seccomp: None,
        selinux: None,
        capabilities: vec![],
        suppl_groups: vec![],
        rlimits: vec![],
        io: None,
        custom: None,
    }
}

fn npk(name: &str, version: &str, handle: u64) -> Npk {
    Npk {
        manifest: manifest(name, version),
        verity_root: vec![0xab; 32],
        verity_salt: vec![0xcd; 32],
        image_offset: 4096,
        image_length: 65536,
        handle,
    }
}

#[test]
fn console_url() {
    assert!(check_console_url("tcp://localhost:4200"));
    assert!(check_console_url("unix:///tmp/console"));
    assert!(!check_console_url("http://localhost:4200"));
    assert!(!check_console_url("not a url"));
}

#[test]
fn config_defaults() {
    assert_eq!(default_device_mapper_timeout(), 10);
    assert_eq!(default_loop_device_timeout(), 10);
    assert_eq!(default_event_buffer_size(), 256);
    assert_eq!(default_notification_buffer_size(), 128);
    assert_eq!(default_token_validity(), 60);
}

fn config() -> Config {
    Config {
        run_dir: "/run/northstar".to_string(),
        data_dir: "/var/lib/northstar".to_string(),
        log_dir: "/var/log/northstar".to_string(),
        cgroup: "northstar".to_string(),
        event_buffer_size: default_event_buffer_size(),
        notification_buffer_size: default_notification_buffer_size(),
        device_mapper_device_timeout: default_device_mapper_timeout(),
        loop_device_timeout: default_loop_device_timeout(),
        token_validity: default_token_validity(),
        repositories: vec![
            (
                "mem".to_string(),
                RepositoryConfig {
                    mount_on_start: false,
                    key: None,
                    repository_type: RepositoryType::Memory,
                },
            ),
            (
                "fs".to_string(),
                RepositoryConfig {
                    mount_on_start: true,
                    key: None,
                    repository_type: RepositoryType::Fs {
                        dir: "/var/lib/northstar/repository".to_string(),
                    },
                },
            ),
        ],
        debug: None,
    }
}

#[test]
fn config_check() {
    assert!(config().check().is_ok());

    let mut bad = config();
    bad.cgroup = "".to_string();
    assert_eq!(bad.check(), Err(ConfigError::InvalidCgroup));

    let mut bad = config();
    bad.cgroup = "north\0star".to_string();
    assert_eq!(bad.check(), Err(ConfigError::InvalidCgroup));

    let mut bad = config();
    bad.repositories.push(bad.repositories[0].clone());
    assert_eq!(bad.check(), Err(ConfigError::DuplicateRepository));

    let mut with_debug = config();
    with_debug.debug = Some(northstar::config::Debug {
        console: "tcp://localhost:4200".to_string(),
        strace: None,
        perf: None,
    });
    assert!(with_debug.check().is_ok());
    with_debug.debug = Some(northstar::config::Debug {
        console: "http://localhost:4200".to_string(),
        strace: None,
        perf: None,
    });
    assert_eq!(with_debug.check(), Err(ConfigError::InvalidConsole));
}

#[test]
fn rw_permission_bits() {
    // Owner with full permissions.
    assert!(is_rw(0o700, 1000, 1000, 1000, 1000));
    // Owner with read-only permissions.
    assert!(!is_rw(0o400, 1000, 1000, 1000, 1000));
    // Different owner, but world read-write.
    assert!(is_rw(0o006, 0, 0, 1000, 1000));
    // Group read-write.
    assert!(is_rw(0o060, 0, 1000, 1000, 1000));
    // Group bits do not help a non-member.
    assert!(!is_rw(0o060, 0, 0, 1000, 1000));
    // Readable via group, writable via other.
    assert!(is_rw(0o042, 0, 1000, 1000, 1000));
}

#[test]
fn install_twice_fails() {
    let mut repo = Repository::new(None);
    let installed = repo.insert(npk("test-container", "0.0.1", 1)).unwrap();
    assert_eq!(installed.name().as_str(), "test-container");
    let again = repo.insert(npk("test-container", "0.0.1", 2));
    assert!(matches!(again, Err(Error::InstallDuplicate(_))));
    // The duplicate changed nothing.
    assert_eq!(repo.containers().len(), 1);
}

#[test]
fn install_uninstall_restores() {
    let mut repo = Repository::new(None);
    repo.insert(npk("keep", "1.0.0", 1)).unwrap();
    let before: Vec<u64> = repo.containers().iter().map(|e| e.1.handle).collect();

    let container = repo.insert(npk("test-container", "0.0.1", 2)).unwrap();
    let removed = repo.remove(&container).unwrap();
    assert_eq!(removed.handle, 2);

    let after: Vec<u64> = repo.containers().iter().map(|e| e.1.handle).collect();
    assert_eq!(before, after);

    // A second removal finds nothing.
    assert!(repo.remove(&container).is_none());
}

#[test]
fn repository_lookup() {
    let mut repo = Repository::new(Some(vec![1, 2, 3]));
    assert!(repo.key().is_some());
    let container = repo.insert(npk("app", "1.2.3", 7)).unwrap();
    assert!(repo.contains(&container));
    assert_eq!(repo.get(&container).unwrap().handle, 7);
    let other = Container::try_from("app:1.2.4").unwrap();
    assert!(!repo.contains(&other));
    assert!(repo.get(&other).is_none());
}

#[test]
fn distinct_versions_coexist() {
    let mut repo = Repository::new(None);
    repo.insert(npk("app", "1.0.0", 1)).unwrap();
    repo.insert(npk("app", "1.0.1", 2)).unwrap();
    assert_eq!(repo.containers().len(), 2);
}

#[test]
fn resolve_highest_matching_resource() {
    let mut repo = Repository::new(None);
    repo.insert(npk("res", "1.0.0", 1)).unwrap();
    repo.insert(npk("res", "1.2.0", 2)).unwrap();
    // Same name, but an application, not a resource.
    let mut with_init = npk("res", "2.0.0", 3);
    with_init.manifest.init = Some("/binary".to_string());
    repo.insert(with_init).unwrap();

    let name = Name::try_from("res").unwrap();
    let req = VersionReq::parse(">=1.0.0").unwrap();
    let resolved = repo.resolve_resource(&name, &req).unwrap();
    assert_eq!(resolved.version().to_text(), "1.2.0");

    let too_new = VersionReq::parse(">=3.0.0").unwrap();
    assert!(repo.resolve_resource(&name, &too_new).is_none());

    let unknown = Name::try_from("other").unwrap();
    assert!(repo.resolve_resource(&unknown, &req).is_none());
}

#[test]
fn bind_mount_flags() {
    // Read-only with the restrictive flags by default.
    assert_eq!(
        bind_flags(&MountOptions::default()),
        MS_BIND | MS_NOSUID | MS_NODEV | MS_NOEXEC | MS_RDONLY
    );
    // `rw` removes only the read-only flag.
    assert_eq!(
        bind_flags(&parse_options("rw").unwrap()),
        MS_BIND | MS_NOSUID | MS_NODEV | MS_NOEXEC
    );
    assert_eq!(
        bind_flags(&parse_options("rw,rec").unwrap()),
        MS_BIND | MS_NOSUID | MS_NODEV | MS_NOEXEC | MS_REC
    );
}

#[test]
fn seccomp_mask_predicate() {
    // The predicate `value & 0x4 == value` refuses an argument with a bit
    // outside the mask.
    let rule = SyscallRule::Args(SyscallArgRule {
        index: 1,
        values: None,
        mask: Some(0x4),
    });
    assert!(!rule.matches(&vec![0, 7]));
    assert!(rule.matches(&vec![0, 4]));
    assert!(rule.matches(&vec![0, 0]));
    // The argument index must exist.
    assert!(!rule.matches(&vec![0]));
}

#[test]
fn seccomp_value_predicate() {
    let rule = SyscallRule::Args(SyscallArgRule {
        index: 0,
        values: Some(vec![2, 3]),
        mask: None,
    });
    assert!(rule.matches(&vec![2]));
    assert!(rule.matches(&vec![3]));
    assert!(!rule.matches(&vec![4]));
    assert!(SyscallRule::Any.matches(&vec![]));
}

#[test]
fn critical_exit_shuts_down() {
    assert_eq!(
        exit_action(true, &ExitStatus::Exit { code: 101 }),
        ExitAction::Shutdown
    );
    assert_eq!(
        exit_action(true, &ExitStatus::Signalled { signal: 9 }),
        ExitAction::Shutdown
    );
    assert_eq!(
        exit_action(true, &ExitStatus::Exit { code: 0 }),
        ExitAction::Notify
    );
    assert_eq!(
        exit_action(false, &ExitStatus::Exit { code: 101 }),
        ExitAction::Notify
    );
    assert_eq!(northstar::error::EXIT_CRITICAL_CONTAINER, 2);
}

#[test]
fn start_stop_loop_stable() {
    // Ten start/stop rounds all pass through the same states and end
    // back at Mounted.
    let mut state = ContainerState::Installed;
    state = state.mount().unwrap();
    for round in 0..10u32 {
        assert_eq!(state, ContainerState::Mounted);
        assert_eq!(state.start(false), Ok(StartStep::Launch));
        state = ContainerState::Starting;
        state = state.started(1000 + round);
        assert_eq!(state, ContainerState::Running(1000 + round));
        state = state.stop().unwrap();
        assert_eq!(state, ContainerState::Stopping);
        state = state.exited();
    }
    assert_eq!(state, ContainerState::Mounted);
}

#[test]
fn illegal_transitions_are_typed() {
    assert_eq!(
        ContainerState::Mounted.mount(),
        Err(TransitionError::MountBusy)
    );
    assert_eq!(
        ContainerState::Running(1).start(false),
        Err(TransitionError::StartContainerStarted)
    );
    assert_eq!(
        ContainerState::Mounted.start(true),
        Err(TransitionError::StartContainerResource)
    );
    assert_eq!(
        ContainerState::Mounted.stop(),
        Err(TransitionError::StopContainerNotStarted)
    );
    assert_eq!(
        ContainerState::Installed.umount(0),
        Err(TransitionError::UmountBusy)
    );
    // A container without a process keeps its state on an observed exit.
    assert_eq!(ContainerState::Installed.exited(), ContainerState::Installed);
}

#[test]
fn resource_busy_on_umount() {
    // While a running container binds the resource, the umount is
    // refused; after the stop the use count drops and it succeeds.
    let resource = ContainerState::Mounted;
    assert_eq!(resource.umount(1), Err(TransitionError::UmountBusy));
    assert_eq!(resource.umount(0), Ok(ContainerState::Installed));
}

#[test]
fn frame_roundtrip() {
    let payload = vec![1u8, 2, 3, 4, 5];
    let mut framed = frame(&payload);
    assert_eq!(framed, vec![5u8, 0, 0, 0, 1, 2, 3, 4, 5]);
    // Trailing bytes of the next frame stay untouched.
    framed.push(0xff);
    let (parsed, used) = parse_frame(&framed).unwrap();
    assert_eq!(parsed, payload);
    assert_eq!(used, 9);
}

#[test]
fn frame_incomplete() {
    // A short header or a short body is not a frame yet.
    assert!(parse_frame(&vec![5u8, 0, 0]).is_none());
    assert!(parse_frame(&vec![5u8, 0, 0, 0, 1, 2]).is_none());
    // The empty payload frames to a bare header.
    let empty = frame(&vec![]);
    assert_eq!(empty, vec![0u8, 0, 0, 0]);
    let (parsed, used) = parse_frame(&empty).unwrap();
    assert!(parsed.is_empty());
    assert_eq!(used, 4);
    // A length above the threshold of one byte uses the second byte.
    let long = frame(&vec![7u8; 300]);
    assert_eq!(long[0], 44);
    assert_eq!(long[1], 1);
}

#[test]
fn path_cover_cases() {
    assert!(check_path_covers("/lib", "/lib"));
    assert!(check_path_covers("/lib", "/lib/foo"));
    assert!(!check_path_covers("/lib", "/lib2"));
    assert!(!check_path_covers("/lib/foo", "/lib"));
    assert!(check_path_covers("/", "/anything"));
}
