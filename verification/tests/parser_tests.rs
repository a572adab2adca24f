use lib::domain::{Command, Filesystem, PercentTarget, SizeUnit};
use lib::domain::LvRequest;
use lib::parser::{parse, parse_provision};

fn strings(v: &[&str]) -> Vec<String> {
    v.iter().map(|s| s.to_string()).collect()
}

#[test]
fn test_parse_router_matrix() {
    let test_cases = vec![
        (vec!["lvq"], "Usage: lvq <command> [options]"),
        (vec!["lvq", "destroy", "--lv", "data"], "Unknown command: destroy"),
        (vec!["lvq", "--pv", "/dev/sda"], "Unknown command: "),
        (vec!["lvq", "--vg", "provision", "--pv", "/dev/sda"], "Unknown command: "),
    ];

    for (args_str, expected_err) in test_cases {
        let args: Vec<String> = args_str.iter().map(|s| s.to_string()).collect();
        let result = parse(args);

        assert!(result.is_err(), "Expected error on input: {:?}", args_str);
        assert_eq!(result.unwrap_err(), expected_err);
    }
}

#[test]
fn parse_provision_reflexive_roundtrip() {
    let args = strings(&[
        "lvq", "provision", "--pv", "/dev/sdb:/dev/sdc", "--vg", "data_vg", "--lv", "logs:10G",
        "--lv", "db:20G",
    ]);
    let Command::Provision { pvs, vg_name, pe_size, lvs } = parse_provision(&args).unwrap();
    assert_eq!(pvs, vec!["/dev/sdb".to_string(), "/dev/sdc".to_string()]);
    assert_eq!(vg_name, "data_vg");
    assert_eq!(pe_size, SizeUnit::Megabytes(4));
    assert_eq!(lvs.len(), 2);
    assert_eq!(lvs[0].name, "logs");
    assert_eq!(lvs[0].size, SizeUnit::Gigabytes(10));
    assert_eq!(lvs[1].name, "db");
}

#[test]
fn parse_provision_empty_pv_pieces_are_dropped() {
    let args = strings(&["lvq", "provision", "--pv", "::/dev/sdb::", "--vg", "vg", "--lv", "a:1G"]);
    let Command::Provision { pvs, .. } = parse_provision(&args).unwrap();
    assert_eq!(pvs, vec!["/dev/sdb".to_string()]);
}

#[test]
fn parse_provision_pe_size_from_vg() {
    let args = strings(&["lvq", "provision", "--pv", "/dev/sdb", "--vg", "vg0:8M", "--lv", "a:1G"]);
    let Command::Provision { vg_name, pe_size, .. } = parse_provision(&args).unwrap();
    assert_eq!(vg_name, "vg0");
    assert_eq!(pe_size, SizeUnit::Megabytes(8));
    let args = strings(&["lvq", "provision", "--pv", "/dev/sdb", "--vg", "vg0:", "--lv", "a:1G"]);
    let Command::Provision { pe_size, .. } = parse_provision(&args).unwrap();
    assert_eq!(pe_size, SizeUnit::Megabytes(4));
}

#[test]
fn parse_provision_full_lv_spec() {
    let args = strings(&[
        "lvq", "provision", "--pv", "/dev/sdb", "--vg", "vg", "--lv", "data:100%FREE:ext4:/mnt/data",
        "--lv", "swap:2G:swap",
    ]);
    let Command::Provision { lvs, .. } = parse_provision(&args).unwrap();
    let first = &lvs[0];
    match first.size {
        SizeUnit::Percentage(p, t) => {
            assert_eq!(p.get(), 100);
            assert_eq!(t, PercentTarget::Free);
        }
        _ => panic!("expected a percentage"),
    }
    let fs = first.fs.as_ref().unwrap();
    assert_eq!(fs.fs, Filesystem::Ext4);
    assert_eq!(fs.mount_path, Some("/mnt/data".to_string()));
    let second = lvs[1].fs.as_ref().unwrap();
    assert_eq!(second.fs, Filesystem::Swap);
    assert_eq!(second.mount_path, None);
}

#[test]
fn parse_provision_errors() {
    let cases: Vec<(Vec<&str>, &str)> = vec![
        (vec!["lvq", "provision", "--pv"], "Missing value for --pv"),
        (vec!["lvq", "provision", "--pv", "-y"], "Expected value after --pv, found flag '-y'"),
        (
            vec!["lvq", "provision", "--vg", "a", "--vg", "b"],
            "Volume Group can only be specified once",
        ),
        (vec!["lvq", "provision", "--bogus"], "Unknown argument: --bogus"),
        (
            vec!["lvq", "provision", "--pv", "/dev/sdb", "--vg", "vg"],
            "Provisioning requires at least one --pv, a --vg name, and a valid --lv structure",
        ),
        (vec!["lvq", "provision", "--lv", "data"], "Invalid LV format: data. Expected name:size[:fs[:mount]]"),
        (vec!["lvq", "provision", "--lv", ":1G"], "LV name cannot be empty: :1G"),
        (vec!["lvq", "provision", "--lv", "a:1Q"], "Invalid size: 1Q"),
        (vec!["lvq", "provision", "--lv", "a:0G"], "Size must be greater than zero: 0G"),
        (vec!["lvq", "provision", "--lv", "a:101%VG"], "Percentage must be between 1 and 100: 101%VG"),
        (
            vec!["lvq", "provision", "--lv", "a:99999999999999999999G"],
            "Size out of range: 99999999999999999999G",
        ),
        (vec!["lvq", "provision", "--lv", "a:1G:ntfs"], "Unsupported filesystem: ntfs"),
        (vec!["lvq", "provision", "--vg", "vg:x"], "Invalid size: x"),
    ];
    for (args, expected) in cases {
        let r = parse_provision(&strings(&args));
        assert_eq!(r.unwrap_err(), expected, "on {:?}", args);
    }
}

#[test]
fn parse_floating_auto_confirm() {
    let base = vec!["lvq", "provision", "--pv", "/dev/sdb", "--vg", "vg", "--lv", "a:1G", "--lv", "b:2M"];
    let mut safe = vec![1, 2];
    let mut i = 4;
    while i <= base.len() {
        safe.push(i);
        i += 2;
    }
    for pos in safe {
        let mut args = strings(&base);
        args.insert(pos, "-y".to_string());
        let action = parse(args).expect("floating -y should parse");
        assert!(action.auto_confirm, "-y at {}", pos);
        let Command::Provision { lvs, .. } = action.command;
        assert_eq!(lvs.len(), 2);
    }
    let action = parse(strings(&base)).unwrap();
    assert!(!action.auto_confirm);
    let mut args = strings(&base);
    args.push("--auto-confirm".to_string());
    assert!(parse(args).unwrap().auto_confirm);
}

#[test]
fn size_units_parse() {
    assert_eq!(SizeUnit::from_str("10G").unwrap(), SizeUnit::Gigabytes(10));
    assert_eq!(SizeUnit::from_str("4M").unwrap(), SizeUnit::Megabytes(4));
    assert_eq!(SizeUnit::from_str("3T").unwrap(), SizeUnit::Terabytes(3));
    assert_eq!(SizeUnit::from_str("250").unwrap(), SizeUnit::Extents(250));
    assert_eq!(
        SizeUnit::from_str("18446744073709551615M").unwrap(),
        SizeUnit::Megabytes(u64::MAX)
    );
    assert!(SizeUnit::from_str("18446744073709551616M").is_err());
    assert!(SizeUnit::from_str("").is_err());
    assert!(SizeUnit::from_str("G").is_err());
    assert!(SizeUnit::from_str("1g").is_err());
    match SizeUnit::from_str("50%PVS").unwrap() {
        SizeUnit::Percentage(p, t) => {
            assert_eq!(p.get(), 50);
            assert_eq!(t, PercentTarget::Pvs);
        }
        _ => panic!("expected a percentage"),
    }
}

#[test]
fn lv_request_parse() {
    let r = LvRequest::from_str("web:5G:xfs:").unwrap();
    assert_eq!(r.name, "web");
    assert_eq!(r.fs.unwrap().mount_path, None);
    assert!(LvRequest::from_str("a:1G:xfs:/m:extra").is_err());
    assert_eq!(Filesystem::from_str("vfat").unwrap(), Filesystem::Vfat);
}

#[test]
fn skip_tokens_between_flags_change_nothing() {
    let base = strings(&["lvq", "provision", "--pv", "/dev/sdb", "--vg", "vg", "--lv", "a:1G"]);
    let expected = parse_provision(&base).unwrap();
    for pos in [2usize, 4, 6, 8] {
        for tok in ["-y", "--auto-confirm", "provision"] {
            let mut args = base.clone();
            args.insert(pos, tok.to_string());
            assert_eq!(parse_provision(&args).unwrap(), expected, "{} at {}", tok, pos);
        }
    }
}

#[test]
fn closed_form_of_a_well_formed_line() {
    let args = strings(&[
        "lvq", "--lv", "a:1G", "--pv", "/dev/sdb::/dev/sdc", "-y", "--vg", "vg0:16M", "--pv", "/dev/sdd",
        "--lv", "b:10%VG",
    ]);
    let Command::Provision { pvs, vg_name, pe_size, lvs } = parse_provision(&args).unwrap();
    assert_eq!(pvs, vec!["/dev/sdb".to_string(), "/dev/sdc".to_string(), "/dev/sdd".to_string()]);
    assert_eq!(vg_name, "vg0");
    assert_eq!(pe_size, SizeUnit::Megabytes(16));
    assert_eq!(lvs.iter().map(|l| l.name.clone()).collect::<Vec<_>>(), vec!["a", "b"]);
}
