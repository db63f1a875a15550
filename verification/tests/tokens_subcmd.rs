use flood_tide::check;
use flood_tide::Arg;
use flood_tide::Lex;
use flood_tide::LexConfig;
use flood_tide::NameVal;
use flood_tide::Opt;
use flood_tide::OptNum;
use flood_tide::Tokens;

fn mkopt(sho: u8, lon: &str, has: Arg, num: OptNum) -> Opt {
    Opt {
        sho,
        lon: lon.to_string(),
        has,
        num,
    }
}

fn config(abbreviate: bool, single_error: bool) -> LexConfig {
    LexConfig {
        abbreviate,
        long_only: false,
        single_error,
        stop_at_mm: true,
        stop_at_free: false,
    }
}

fn check_nv(tokens: &Tokens, idx: usize, sho: u8, lon: &str, val: Option<&str>, num: OptNum) {
    let nmvl: &NameVal = match tokens.namevals.get(idx) {
        Some(v) => v,
        None => unreachable!(),
    };
    assert_eq!(nmvl.opt.sho, sho);
    assert_eq!(nmvl.opt.lon.as_str(), lon);
    assert_eq!(nmvl.val.as_deref(), val);
    assert_eq!(nmvl.opt.num, num);
}

fn check_subcmd(tokens: &Tokens, val: &str) {
    let subcmd = match tokens.subcmd {
        Some(ref s) => s,
        None => unreachable!(),
    };
    assert_eq!(subcmd.as_str(), val);
}

#[test]
fn tokens_subcommand() {
    let args = vec!["-a", "val1", "--long2=val2", "-c", "cmd1"];
    //
    let opt_ary = [
        mkopt(b'a', "long1", Arg::Yes, 1),
        mkopt(0u8, "long2", Arg::Yes, 2),
        mkopt(b'c', "long3", Arg::No, 3),
    ];
    let opt_ary_sho_idx = [(b'a', 0), (b'c', 2)];
    //
    let lex = {
        assert!(check::check_sorted_opt_ary_and_sho_idx_ary_with(
            &opt_ary,
            &opt_ary_sho_idx
        ));
        Lex::create_with(&opt_ary, &opt_ary_sho_idx).subcmd(&["cmd1", "cmd2", "cmd3"])
    };
    let tokens = match lex.tokens_from(&args) {
        Ok(t) => t,
        Err(e) => {
            assert_eq!(e.message(), "");
            unreachable!();
        }
    };
    //
    check_nv(&tokens, 0, b'a', "long1", Some("val1"), 1);
    check_nv(&tokens, 1, 0u8, "long2", Some("val2"), 2);
    check_nv(&tokens, 2, b'c', "long3", None, 3);
    check_subcmd(&tokens, "cmd1");
    //
    assert_eq!(tokens.double_m, false);
}

#[test]
fn tokens_subcommand_invalid_subcommand() {
    let args = vec!["-a", "val1", "--long2=val2", "-c", "cmd4"];
    //
    let opt_ary = [
        mkopt(b'a', "long1", Arg::Yes, 1),
        mkopt(0u8, "long2", Arg::Yes, 2),
        mkopt(b'c', "long3", Arg::No, 3),
    ];
    let opt_ary_sho_idx = [(b'a', 0), (b'c', 2)];
    //
    let lex = {
        assert!(check::check_sorted_opt_ary_and_sho_idx_ary_with(
            &opt_ary,
            &opt_ary_sho_idx
        ));
        Lex::create_with(&opt_ary, &opt_ary_sho_idx).subcmd(&["cmd1", "cmd2", "cmd3"])
    };
    match lex.tokens_from(&args) {
        Ok(_) => unreachable!(),
        Err(e) => {
            let thing = e.message();
            let expect = "Invalid subcommand: cmd4";
            assert_eq!(thing, expect);
        }
    };
}

#[test]
fn tokens_subcommand_ok_nealy_missing_subcommand() {
    let args = vec!["-a", "val1", "--long2=val2", "-c"];
    //
    let opt_ary = [
        mkopt(b'a', "long1", Arg::Yes, 1),
        mkopt(0u8, "long2", Arg::Yes, 2),
        mkopt(b'c', "long3", Arg::No, 3),
    ];
    let opt_ary_sho_idx = [(b'a', 0), (b'c', 2)];
    //
    let lex = {
        assert!(check::check_sorted_opt_ary_and_sho_idx_ary_with(
            &opt_ary,
            &opt_ary_sho_idx
        ));
        Lex::create_with(&opt_ary, &opt_ary_sho_idx).subcmd(&["cmd1", "cmd2", "cmd3"])
    };
    let tokens = match lex.tokens_from(&args) {
        Ok(t) => t,
        Err(e) => {
            assert_eq!(e.message(), "");
            unreachable!();
        }
    };
    //
    check_nv(&tokens, 0, b'a', "long1", Some("val1"), 1);
    check_nv(&tokens, 1, 0u8, "long2", Some("val2"), 2);
    check_nv(&tokens, 2, b'c', "long3", None, 3);
    assert_eq!(tokens.subcmd, None);
    //
    assert_eq!(tokens.double_m, false);
}

#[test]
fn tokens_subcommand_abbreviate() {
    let args = vec!["-a", "val1", "--long2=val2", "-c", "c"];
    //
    let opt_ary = [
        mkopt(b'a', "long1", Arg::Yes, 1),
        mkopt(0u8, "long2", Arg::Yes, 2),
        mkopt(b'c', "long3", Arg::No, 3),
    ];
    let opt_ary_sho_idx = [(b'a', 0), (b'c', 2)];
    //
    assert!(check::check_sorted_opt_ary_and_sho_idx_ary_with(
        &opt_ary,
        &opt_ary_sho_idx
    ));
    {
        let lex = Lex::create_with(&opt_ary, &opt_ary_sho_idx)
            .subcmd(&["cmd1"])
            .with_config(config(true, false));
        let tokens = match lex.tokens_from(&args) {
            Ok(t) => t,
            Err(e) => {
                assert_eq!(e.message(), "");
                unreachable!();
            }
        };
        //
        check_nv(&tokens, 0, b'a', "long1", Some("val1"), 1);
        check_nv(&tokens, 1, 0u8, "long2", Some("val2"), 2);
        check_nv(&tokens, 2, b'c', "long3", None, 3);
        check_subcmd(&tokens, "cmd1");
        //
        assert_eq!(tokens.double_m, false);
    }
    {
        let lex = Lex::create_with(&opt_ary, &opt_ary_sho_idx).subcmd(&["cmd1"]);
        match lex.tokens_from(&args) {
            Ok(_) => unreachable!(),
            Err(e) => {
                let thing = e.message();
                let expect = "Invalid subcommand: c";
                assert_eq!(thing, expect);
            }
        };
    }
}

#[test]
fn tokens_subcommand_ambiguous() {
    let args = vec!["-a", "val1", "--long2=val2", "-c", "c"];
    //
    let opt_ary = [
        mkopt(b'a', "long1", Arg::Yes, 1),
        mkopt(0u8, "long2", Arg::Yes, 2),
        mkopt(b'c', "long3", Arg::No, 3),
    ];
    let opt_ary_sho_idx = [(b'a', 0), (b'c', 2)];
    //
    assert!(check::check_sorted_opt_ary_and_sho_idx_ary_with(
        &opt_ary,
        &opt_ary_sho_idx
    ));
    {
        let lex = Lex::create_with(&opt_ary, &opt_ary_sho_idx)
            .subcmd(&["cmd1", "cmd2", "cmd3"])
            .with_config(config(true, false));
        match lex.tokens_from(&args) {
            Ok(_) => unreachable!(),
            Err(e) => {
                let thing = e.message();
                let expect = "Ambiguous subcommand: c: possibilities: \'cmd1\' \'cmd2\' \'cmd3\'";
                assert_eq!(thing, expect);
            }
        };
    }
    {
        let lex = Lex::create_with(&opt_ary, &opt_ary_sho_idx).subcmd(&["cmd1", "cmd2", "cmd3"]);
        match lex.tokens_from(&args) {
            Ok(_) => unreachable!(),
            Err(e) => {
                let thing = e.message();
                let expect = "Invalid subcommand: c";
                assert_eq!(thing, expect);
            }
        };
    }
}

#[test]
fn tokens_subcommand_empty() {
    let args = vec!["-a", "val1", "--long2=val2", "-c", ""];
    //
    let opt_ary = [
        mkopt(b'a', "long1", Arg::Yes, 1),
        mkopt(0u8, "long2", Arg::Yes, 2),
        mkopt(b'c', "long3", Arg::No, 3),
    ];
    let opt_ary_sho_idx = [(b'a', 0), (b'c', 2)];
    //
    let lex = {
        assert!(check::check_sorted_opt_ary_and_sho_idx_ary_with(
            &opt_ary,
            &opt_ary_sho_idx
        ));
        Lex::create_with(&opt_ary, &opt_ary_sho_idx).subcmd(&["cmd1", "cmd2", "cmd3"])
    };
    let tokens = match lex.tokens_from(&args) {
        Ok(t) => t,
        Err(e) => {
            assert_eq!(e.message(), "");
            unreachable!();
        }
    };
    //
    check_nv(&tokens, 0, b'a', "long1", Some("val1"), 1);
    check_nv(&tokens, 1, 0u8, "long2", Some("val2"), 2);
    check_nv(&tokens, 2, b'c', "long3", None, 3);
    assert_eq!(tokens.subcmd, None);
    //
    assert_eq!(tokens.double_m, false);
}

#[test]
fn tokens_subcommand_invalid_opt() {
    let args = vec!["-x", "val1", "--long2=val2", "-c", ""];
    //
    let opt_ary = [
        mkopt(b'a', "long1", Arg::Yes, 1),
        mkopt(0u8, "long2", Arg::Yes, 2),
        mkopt(b'c', "long3", Arg::No, 3),
    ];
    let opt_ary_sho_idx = [(b'a', 0), (b'c', 2)];
    //
    let lex = {
        assert!(check::check_sorted_opt_ary_and_sho_idx_ary_with(
            &opt_ary,
            &opt_ary_sho_idx
        ));
        Lex::create_with(&opt_ary, &opt_ary_sho_idx)
            .subcmd(&["cmd1", "cmd2", "cmd3"])
            .with_config(config(false, true))
    };
    match lex.tokens_from(&args) {
        Ok(_) => unreachable!(),
        Err(e) => {
            let thing = e.message();
            let expect = "Invalid option: x";
            assert_eq!(thing, expect);
        }
    };
}
