use flood_tide::check;
use flood_tide::Arg;
use flood_tide::Lex;
use flood_tide::LexConfig;
use flood_tide::NameVal;
use flood_tide::Opt;
use flood_tide::OptNum;
use flood_tide::Tokens;

fn mkopt(sho: u8, lon: &str, has: Arg, num: OptNum) -> Opt {
    Opt {
        sho,
        lon: lon.to_string(),
        has,
        num,
    }
}

#[test]
fn opt() {
    let opt = mkopt(b'n', "name", Arg::Yes, 1);
    //
    let thing = format!("{:?}", opt);
    let expect = "Opt { sho: 110, lon: \"name\", has: Yes, num: 1 }";
    assert_eq!(thing, expect);
}

#[test]
fn has_arg() {
    assert_eq!(format!("{:?}", Arg::No), "No");
    assert_eq!(format!("{:?}", Arg::Yes), "Yes");
    assert_eq!(format!("{:?}", Arg::Maybe), "Maybe");
}

#[test]
fn name_val() {
    let opt = mkopt(b'n', "name", Arg::Yes, 1);
    let nv = NameVal {
        opt,
        val: Some("value".to_string()),
        was_long: true,
    };
    //
    let thing = format!("{:?}", nv);
    let expect = "NameVal { opt: Opt { sho: 110, lon: \"name\"".to_string()
        + ", has: Yes"
        + ", num: 1 }"
        + ", val: Some(\"value\")"
        + ", was_long: true"
        + " }";
    assert_eq!(thing, expect);
}

#[test]
fn name_val_name() {
    let opt = mkopt(b'n', "name", Arg::Yes, 1);
    let nv = NameVal {
        opt,
        val: Some("value".to_string()),
        was_long: false,
    };
    //
    let thing = nv.name();
    let expect = "n";
    assert_eq!(thing, expect);
}

#[test]
fn tokens() {
    let opt1 = mkopt(b'a', "name1", Arg::Yes, 1);
    let opt2 = mkopt(b'b', "name2", Arg::Yes, 2);
    let opt3 = mkopt(b'c', "name3", Arg::No, 3);
    //
    let tks = Tokens {
        namevals: vec![
            NameVal {
                opt: opt1,
                val: Some("value1".to_string()),
                was_long: true,
            },
            NameVal {
                opt: opt2,
                val: Some("value2".to_string()),
                was_long: true,
            },
            NameVal {
                opt: opt3,
                val: None,
                was_long: false,
            },
        ],
        double_m: true,
        subcmd: Some("command".to_string()),
        free: vec![
            "free1".to_string(),
            "free2".to_string(),
            "free3".to_string(),
        ],
    };
    //
    let thing = format!("{:?}", tks);
    let expect = "Tokens { namevals: ".to_string()
        + "[NameVal { opt: Opt { sho: 97, lon: \"name1\", has: Yes, num: 1 }, val: Some(\"value1\"), was_long: true },"
        + " NameVal { opt: Opt { sho: 98, lon: \"name2\", has: Yes, num: 2 }, val: Some(\"value2\"), was_long: true },"
        + " NameVal { opt: Opt { sho: 99, lon: \"name3\", has: No, num: 3 }, val: None, was_long: false }"
        + "],"
        + " double_m: true,"
        + " subcmd: Some(\"command\"),"
        + " free: [\"free1\", \"free2\", \"free3\"] }";
    assert_eq!(thing, expect);
}

#[test]
fn lex() {
    let opt_ary = [
        mkopt(b'i', "info", Arg::No, 3),
        mkopt(b'n', "name", Arg::Yes, 1),
        mkopt(b's', "section", Arg::Maybe, 2),
    ];
    let opt_ary_sho_idx = [(b'i', 0), (b'n', 1), (b's', 2)];
    //
    let lex = {
        assert!(check::check_sorted_opt_ary_and_sho_idx_ary_with(
            &opt_ary,
            &opt_ary_sho_idx
        ));
        Lex::create_with(&opt_ary, &opt_ary_sho_idx)
    };
    //
    let thing = format!("{:?}", lex);
    //
    let opts_s = "opts: ".to_string()
        + "[Opt { sho: 105, lon: \"info\", has: No, num: 3 },"
        + " Opt { sho: 110, lon: \"name\", has: Yes, num: 1 },"
        + " Opt { sho: 115, lon: \"section\", has: Maybe, num: 2 }]";
    let sho_idx_s = ", sho_idx: [(105, 0), (110, 1), (115, 2)]";
    let subcmd = ", subcmds: []";
    let config_s = ", config: LexConfig { abbreviate: false, long_only: false, single_error: false, stop_at_mm: true, stop_at_free: false }";
    let expect = "Lex { ".to_string() + &opts_s + sho_idx_s + subcmd + config_s + " }";
    assert_eq!(thing, expect);
}

#[test]
fn lex_single() {
    let opt_ary = [
        mkopt(b'i', "info", Arg::No, 3),
        mkopt(b'n', "name", Arg::Yes, 1),
        mkopt(b's', "section", Arg::Maybe, 2),
    ];
    let opt_ary_sho_idx = [(b'i', 0), (b'n', 1), (b's', 2)];
    //
    let lex = {
        assert!(check::check_sorted_opt_ary_and_sho_idx_ary_with(
            &opt_ary,
            &opt_ary_sho_idx
        ));
        Lex::create_with(&opt_ary, &opt_ary_sho_idx).with_config(LexConfig {
            abbreviate: false,
            long_only: true,
            single_error: false,
            stop_at_mm: true,
            stop_at_free: false,
        })
    };
    //
    let thing = format!("{:?}", lex);
    //
    let opts_s = "opts: ".to_string()
        + "[Opt { sho: 105, lon: \"info\", has: No, num: 3 },"
        + " Opt { sho: 110, lon: \"name\", has: Yes, num: 1 },"
        + " Opt { sho: 115, lon: \"section\", has: Maybe, num: 2 }]";
    let sho_idx_s = ", sho_idx: [(105, 0), (110, 1), (115, 2)]";
    let subcmd = ", subcmds: []";
    let config_s = ", config: LexConfig { abbreviate: false, long_only: true, single_error: false, stop_at_mm: true, stop_at_free: false }";
    let expect = "Lex { ".to_string() + &opts_s + sho_idx_s + subcmd + config_s + " }";
    assert_eq!(thing, expect);
}

#[test]
fn lex_sub_cmd() {
    let opt_ary = [
        mkopt(b'i', "info", Arg::No, 3),
        mkopt(b'n', "name", Arg::Yes, 1),
        mkopt(b's', "section", Arg::Maybe, 2),
    ];
    let opt_ary_sho_idx = [(b'i', 0), (b'n', 1), (b's', 2)];
    //
    let lex = {
        assert!(check::check_sorted_opt_ary_and_sho_idx_ary_with(
            &opt_ary,
            &opt_ary_sho_idx
        ));
        Lex::create_with(&opt_ary, &opt_ary_sho_idx).subcmd(&["sub_command"])
    };
    //
    let thing = format!("{:?}", lex);
    //
    let opts_s = "opts: ".to_string()
        + "[Opt { sho: 105, lon: \"info\", has: No, num: 3 },"
        + " Opt { sho: 110, lon: \"name\", has: Yes, num: 1 },"
        + " Opt { sho: 115, lon: \"section\", has: Maybe, num: 2 }]";
    let sho_idx_s = ", sho_idx: [(105, 0), (110, 1), (115, 2)]";
    let subcmd = ", subcmds: [\"sub_command\"]";
    let config_s = ", config: LexConfig { abbreviate: false, long_only: false, single_error: false, stop_at_mm: true, stop_at_free: false }";
    let expect = "Lex { ".to_string() + &opts_s + sho_idx_s + subcmd + config_s + " }";
    assert_eq!(thing, expect);
}
