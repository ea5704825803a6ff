use northstar::manifest::{
    Autostart, CGroups, Capability, CpuResources, Error, Manifest, MemoryResources,
    RLimitResource, RLimitValue, Selinux,
};
use northstar::mount::{parse_options, parse_size, Bind, Mount, MountOptions, Resource, Tmpfs};
use northstar::name::Name;
use northstar::seccomp::{Seccomp, SyscallRule};
use northstar::version::{Version, VersionReq};

fn base() -> Manifest {
    Manifest {
        name: Name::try_from("hello").unwrap(),
        version: Version::parse("0.0.0").unwrap(),
        console: None,
        init: Some("/binary".to_string()),
        args: vec![],
        env: vec![],
        uid: 1000,
        gid: 1001,
        mounts: vec![],
        autostart: None,
        cgroups: None,
        network: None,
        seccomp: None,
        selinux: None,
        capabilities: vec![],
        suppl_groups: vec![],
        rlimits: vec![],
        io: None,
        custom: None,
    }
}

fn options(s: &str) -> MountOptions {
    parse_options(s).unwrap()
}

#[test]
fn parse() {
    let mut manifest = base();
    manifest.args = vec!["one".to_string(), "two".to_string()];
    manifest.env = vec![("LD_LIBRARY_PATH".to_string(), "/lib".to_string())];
    manifest.suppl_groups = vec!["inet".to_string(), "log".to_string()];
    manifest.capabilities = vec![
        Capability::CAP_NET_RAW,
        Capability::CAP_MKNOD,
        Capability::CAP_SYS_TIME,
    ];
    manifest.rlimits = vec![(
        RLimitResource::NProc,
        RLimitValue {
            soft: Some(1000),
            hard: Some(1000),
        },
    )];
    manifest.mounts = vec![
        ("/dev".to_string(), Mount::Dev),
        ("/tmp".to_string(), Mount::Tmpfs(Tmpfs { size: 42 })),
        (
            "/lib".to_string(),
            Mount::Bind(Bind {
                host: "/lib".to_string(),
                options: options("rw"),
            }),
        ),
        ("/data".to_string(), Mount::Persist),
        (
            "/resource".to_string(),
            Mount::Resource(Resource {
                name: Name::try_from("bla-blah.foo").unwrap(),
                version: VersionReq::parse(">=1.0.0").unwrap(),
                dir: "/bin/foo".to_string(),
                options: options("noexec"),
            }),
        ),
    ];
    manifest.autostart = Some(Autostart::Critical);
    manifest.seccomp = Some(Seccomp {
        profile: None,
        allow: Some(vec![
            ("fork".to_string(), SyscallRule::Any),
            ("waitpid".to_string(), SyscallRule::Any),
        ]),
    });
    manifest.cgroups = Some(CGroups {
        cpu: Some(CpuResources {
            cpus: Some("0,1".to_string()),
            shares: Some(1024),
            attrs: vec![],
        }),
        memory: Some(MemoryResources {
            memory_hard_limit: Some(1000000),
            memory_soft_limit: Some(1000000),
            swappiness: Some(0),
            attrs: vec![],
        }),
    });

    assert!(manifest.validate().is_ok());
    assert_eq!(manifest.init, Some("/binary".to_string()));
    assert_eq!(manifest.name.as_str(), "hello");
    assert_eq!(manifest.args.len(), 2);
    assert_eq!(manifest.args[0], "one");
    assert_eq!(manifest.args[1], "two");
    assert_eq!(manifest.autostart, Some(Autostart::Critical));
    assert_eq!(manifest.env[0], ("LD_LIBRARY_PATH".to_string(), "/lib".to_string()));
    assert_eq!(manifest.uid, 1000);
    assert_eq!(manifest.gid, 1001);
    assert_eq!(
        manifest.capabilities,
        vec![
            Capability::CAP_NET_RAW,
            Capability::CAP_MKNOD,
            Capability::CAP_SYS_TIME
        ]
    );
    assert_eq!(
        manifest.suppl_groups,
        vec!["inet".to_string(), "log".to_string()]
    );
    assert!(matches!(&manifest.mounts[1].1, Mount::Tmpfs(t) if t.size == 42));
}

#[test]
fn invalid_uid() {
    let mut manifest = base();
    manifest.uid = 0;
    assert!(manifest.validate().is_err());
    assert_eq!(manifest.validate(), Err(Error::InvalidUid));
}

#[test]
fn invalid_gid() {
    let mut manifest = base();
    manifest.gid = 0;
    assert!(manifest.validate().is_err());
}

#[test]
fn invalid_selinux_context() {
    let mut manifest = base();
    manifest.selinux = Some(Selinux {
        context: "fo@o".to_string(),
    });
    assert!(manifest.validate().is_err());
}

#[test]
fn invalid_suppl_group_nul() {
    let mut manifest = base();
    manifest.suppl_groups = vec!["fo\0o".to_string()];
    assert!(manifest.validate().is_err());
}

#[test]
fn invalid_suppl_group_too_long() {
    let mut manifest = base();
    manifest.suppl_groups =
        vec!["looooooooooooooooooooooooooooooooooooooooooooooooooooooooooooooooooooooooooooooooooooooooooooooooooong".to_string()];
    assert!(manifest.validate().is_err());
}

#[test]
fn invalid_suppl_group_duplicate() {
    let mut manifest = base();
    manifest.suppl_groups = vec!["foo".to_string(), "foo".to_string()];
    assert!(manifest.validate().is_err());
}

#[test]
fn duplicate_mount() {
    let mut manifest = base();
    manifest.mounts = vec![
        ("/dev".to_string(), Mount::Dev),
        ("/dev".to_string(), Mount::Dev),
    ];
    assert!(manifest.validate().is_err());
}

#[test]
fn overlapping_mount() {
    let bind = || {
        Mount::Bind(Bind {
            host: "/lib".to_string(),
            options: MountOptions::default(),
        })
    };
    let mut manifest = base();
    manifest.mounts = vec![
        ("/lib/overlapping".to_string(), bind()),
        ("/lib/non_overlapping1".to_string(), bind()),
        ("/lib/non_overlapping2".to_string(), bind()),
        ("/lib/overlapping/foo".to_string(), bind()),
    ];
    assert!(manifest.validate().is_err());
}

#[test]
fn non_overlapping_mount() {
    let bind = || {
        Mount::Bind(Bind {
            host: "/lib".to_string(),
            options: MountOptions::default(),
        })
    };
    let mut manifest = base();
    manifest.mounts = vec![
        ("/other_lib1".to_string(), bind()),
        ("/lib/non_overlapping1".to_string(), bind()),
        ("/other_lib2".to_string(), bind()),
        ("/lib/non_overlapping2".to_string(), bind()),
    ];
    assert!(manifest.validate().is_ok());
}

#[test]
#[should_panic]
fn resource_relative_dir() {
    let mut manifest = base();
    manifest.mounts = vec![(
        "/resource".to_string(),
        Mount::Resource(Resource {
            name: Name::try_from("bla-blah.foo").unwrap(),
            version: VersionReq::parse(">=1.0.0").unwrap(),
            dir: "bin/foo".to_string(),
            options: MountOptions::default(),
        }),
    )];
    manifest.validate().unwrap();
}

#[test]
fn resource_absolute() {
    let mut manifest = base();
    manifest.mounts = vec![(
        "/resource".to_string(),
        Mount::Resource(Resource {
            name: Name::try_from("bla-blah.foo").unwrap(),
            version: VersionReq::parse(">=1.0.0").unwrap(),
            dir: "/bin/foo".to_string(),
            options: MountOptions::default(),
        }),
    )];
    assert!(manifest.validate().is_ok());
}

#[test]
fn tmpfs() {
    assert_eq!(parse_size("100"), Some(100));
    assert_eq!(parse_size("100kB"), Some(100000));
    assert_eq!(parse_size("100MB"), Some(100000000));
    assert_eq!(parse_size("100GB"), Some(100000000000));
    assert_eq!(parse_size("100TB"), None);
    assert_eq!(parse_size("kB"), None);
    assert_eq!(parse_size(""), None);
}

#[test]
fn dev_minimal() {
    let mut manifest = base();
    manifest.mounts = vec![("/dev".to_string(), Mount::Dev)];
    assert!(manifest.validate().is_ok());
}

#[test]
fn mount_resource() {
    let mut manifest = base();
    manifest.mounts = vec![(
        "/foo".to_string(),
        Mount::Resource(Resource {
            name: Name::try_from("foo-bar.qwerty12").unwrap(),
            version: VersionReq::parse(">=0.0.1").unwrap(),
            dir: "/".to_string(),
            options: options("rw,noexec,nosuid"),
        }),
    )];
    assert!(manifest.validate().is_ok());
}

#[test]
fn env() {
    let mut manifest = base();
    manifest.env = vec![
        ("LD_LIBRARY_PATH".to_string(), "/lib".to_string()),
        ("PATH".to_string(), "/bin".to_string()),
    ];
    assert!(manifest.validate().is_ok());

    for key in [
        "NORTHSTAR_CONSOLE",
        "NORTHSTAR_NAME",
        "NORTHSTAR_CONTAINER",
        "NORTHSTAR_VERSION",
    ] {
        let mut manifest = base();
        manifest.env = vec![(key.to_string(), "foo".to_string())];
        assert!(manifest.validate().is_err());
        assert_eq!(manifest.validate(), Err(Error::InvalidEnvironment));
    }
}

#[test]
fn mount_options_words() {
    let opts = parse_options("rw,nosuid,nodev,noexec").unwrap();
    assert!(opts.rw && opts.nosuid && opts.nodev && opts.noexec && !opts.rec);
    assert_eq!(parse_options(""), Some(MountOptions::default()));
    assert_eq!(parse_options("bogus"), None);
    assert_eq!(parse_options(",rw"), None);
    assert_eq!(parse_options("rw,bogus"), None);
}

#[test]
fn mount_options_text_roundtrip() {
    let opts = parse_options("rw,nosuid,rec").unwrap();
    assert_eq!(opts.to_text(), "rw,nosuid,rec");
    assert_eq!(parse_options(&opts.to_text()), Some(opts));
    assert_eq!(MountOptions::default().to_text(), "");
    assert_eq!(
        parse_options(&MountOptions::default().to_text()),
        Some(MountOptions::default())
    );
}

#[test]
fn duplicate_env_key() {
    let mut manifest = base();
    manifest.env = vec![
        ("PATH".to_string(), "/bin".to_string()),
        ("PATH".to_string(), "/sbin".to_string()),
    ];
    assert_eq!(manifest.validate(), Err(Error::InvalidEnvironment));
}

#[test]
fn invalid_init_relative() {
    let mut manifest = base();
    manifest.init = Some("binary".to_string());
    assert_eq!(manifest.validate(), Err(Error::InvalidInit));
}

#[test]
fn invalid_args_nul() {
    let mut manifest = base();
    manifest.args = vec!["o\0ne".to_string()];
    assert_eq!(manifest.validate(), Err(Error::InvalidArgs));
}

#[test]
fn invalid_capability_duplicate() {
    let mut manifest = base();
    manifest.capabilities = vec![Capability::CAP_NET_RAW, Capability::CAP_NET_RAW];
    assert_eq!(manifest.validate(), Err(Error::InvalidCapabilities));
}

#[test]
fn invalid_rlimit_duplicate() {
    let mut manifest = base();
    manifest.rlimits = vec![
        (RLimitResource::Core, RLimitValue { soft: None, hard: None }),
        (RLimitResource::Core, RLimitValue { soft: Some(1), hard: None }),
    ];
    assert_eq!(manifest.validate(), Err(Error::InvalidRLimits));
}

#[test]
fn invalid_mount_target_relative() {
    let mut manifest = base();
    manifest.mounts = vec![("dev".to_string(), Mount::Dev)];
    assert_eq!(manifest.validate(), Err(Error::InvalidMounts));
}

#[test]
fn root_mount_overlaps_everything() {
    let mut manifest = base();
    manifest.mounts = vec![
        (
            "/".to_string(),
            Mount::Bind(Bind {
                host: "/lib".to_string(),
                options: MountOptions::default(),
            }),
        ),
        ("/dev".to_string(), Mount::Dev),
    ];
    assert_eq!(manifest.validate(), Err(Error::InvalidMounts));
}

#[test]
fn launch_environment_injects_reserved_keys() {
    let mut manifest = base();
    manifest.env = vec![("LD_LIBRARY_PATH".to_string(), "/lib".to_string())];
    let env = northstar::launch::launch_env(&manifest, Some(5));
    assert_eq!(env.len(), 5);
    assert_eq!(env[0], ("LD_LIBRARY_PATH".to_string(), "/lib".to_string()));
    assert_eq!(env[1], ("NORTHSTAR_NAME".to_string(), "hello".to_string()));
    assert_eq!(env[2], ("NORTHSTAR_VERSION".to_string(), "0.0.0".to_string()));
    assert_eq!(
        env[3],
        ("NORTHSTAR_CONTAINER".to_string(), "hello:0.0.0".to_string())
    );
    assert_eq!(env[4], ("NORTHSTAR_CONSOLE".to_string(), "5".to_string()));

    let without_console = northstar::launch::launch_env(&manifest, None);
    assert_eq!(without_console.len(), 4);
}

#[test]
fn invalid_cgroups_nul() {
    let mut manifest = base();
    manifest.cgroups = Some(CGroups {
        cpu: Some(CpuResources {
            cpus: Some("0,\01".to_string()),
            shares: None,
            attrs: vec![],
        }),
        memory: None,
    });
    assert_eq!(manifest.validate(), Err(Error::InvalidCGroups));

    let mut manifest = base();
    manifest.cgroups = Some(CGroups {
        cpu: None,
        memory: Some(MemoryResources {
            memory_hard_limit: None,
            memory_soft_limit: None,
            swappiness: None,
            attrs: vec![("limit".to_string(), "1\0".to_string())],
        }),
    });
    assert_eq!(manifest.validate(), Err(Error::InvalidCGroups));
}

#[test]
fn invalid_version_prerelease() {
    let mut manifest = base();
    manifest.version.pre = Some("a..b".to_string());
    assert_eq!(manifest.validate(), Err(Error::InvalidVersion));
}

#[test]
fn uid_one_accepted() {
    let mut manifest = base();
    manifest.uid = 1;
    manifest.gid = 1;
    assert!(manifest.validate().is_ok());
}
