use flood_tide::check;
use flood_tide::Arg;
use flood_tide::Lex;
use flood_tide::NameVal;
use flood_tide::Opt;
use flood_tide::OptNum;
use flood_tide::Tokens;

fn mkopt(sho: u8, lon: &str, has: Arg, num: OptNum) -> Opt {
    Opt {
        sho,
        lon: lon.to_string(),
        has,
        num,
    }
}

fn check_nv(tokens: &Tokens, idx: usize, sho: u8, lon: &str, val: Option<&str>, num: OptNum) {
    let nmvl: &NameVal = match tokens.namevals.get(idx) {
        Some(v) => v,
        None => unreachable!(),
    };
    assert_eq!(nmvl.opt.sho, sho);
    assert_eq!(nmvl.opt.lon.as_str(), lon);
    assert_eq!(nmvl.val.as_deref(), val);
    assert_eq!(nmvl.opt.num, num);
}

fn check_free(tokens: &Tokens, idx: usize, val: &str) {
    let free = match tokens.free.get(idx) {
        Some(v) => v,
        None => unreachable!(),
    };
    assert_eq!(free.as_str(), val);
}

#[test]
fn tokens_short_name() {
    let args = vec!["-a", "-b", "-cd"];
    //
    let opt_ary = [
        mkopt(b'a', "", Arg::No, 1),
        mkopt(b'b', "", Arg::No, 2),
        mkopt(b'c', "", Arg::No, 3),
        mkopt(b'd', "", Arg::No, 4),
    ];
    let opt_ary_sho_idx = [(b'a', 0), (b'b', 1), (b'c', 2), (b'd', 3)];
    //
    let lex = {
        assert!(check::check_sorted_opt_ary_and_sho_idx_ary_with(
            &opt_ary,
            &opt_ary_sho_idx
        ));
        Lex::create_with(&opt_ary, &opt_ary_sho_idx)
    };
    let tokens = match lex.tokens_from(&args) {
        Ok(t) => t,
        _ => unreachable!(),
    };
    //
    check_nv(&tokens, 0, b'a', "", None, 1);
    check_nv(&tokens, 1, b'b', "", None, 2);
    check_nv(&tokens, 2, b'c', "", None, 3);
    check_nv(&tokens, 3, b'd', "", None, 4);
    //
    assert_eq!(tokens.double_m, false);
}

#[test]
fn tokens_short_name_maybe() {
    let args = vec!["-a", "-ab", "-a", "c"];
    //
    let opt_ary = [mkopt(b'a', "", Arg::Maybe, 1)];
    let opt_ary_sho_idx = [(b'a', 0)];
    //
    let lex = {
        assert!(check::check_sorted_opt_ary_and_sho_idx_ary_with(
            &opt_ary,
            &opt_ary_sho_idx
        ));
        Lex::create_with(&opt_ary, &opt_ary_sho_idx)
    };
    let tokens = match lex.tokens_from(&args) {
        Ok(t) => t,
        _ => unreachable!(),
    };
    //
    check_nv(&tokens, 0, b'a', "", Some(""), 1);
    check_nv(&tokens, 1, b'a', "", Some("b"), 1);
    check_nv(&tokens, 2, b'a', "", Some(""), 1);
    //
    check_free(&tokens, 0, "c");
    //
    assert_eq!(tokens.double_m, false);
}

#[test]
fn tokens_short_name_invalid_option() {
    let args = vec!["-ab"];
    //
    let opt_ary = [mkopt(b'a', "", Arg::No, 1)];
    let opt_ary_sho_idx = [(b'a', 0)];
    //
    let lex = {
        assert!(check::check_sorted_opt_ary_and_sho_idx_ary_with(
            &opt_ary,
            &opt_ary_sho_idx
        ));
        Lex::create_with(&opt_ary, &opt_ary_sho_idx)
    };
    match lex.tokens_from(&args) {
        Ok(_) => unreachable!(),
        Err(e) => {
            let thing = e.message();
            let expect = "Invalid option: b";
            assert_eq!(thing, expect);
        }
    };
}

#[test]
fn tokens_short_name_missing_option_argument() {
    let args = vec!["-a"];
    //
    let opt_ary = [mkopt(b'a', "", Arg::Yes, 1)];
    let opt_ary_sho_idx = [(b'a', 0)];
    //
    let lex = {
        assert!(check::check_sorted_opt_ary_and_sho_idx_ary_with(
            &opt_ary,
            &opt_ary_sho_idx
        ));
        Lex::create_with(&opt_ary, &opt_ary_sho_idx)
    };
    match lex.tokens_from(&args) {
        Ok(_) => unreachable!(),
        Err(e) => {
            let thing = e.message();
            let expect = "Missing option argument: a";
            assert_eq!(thing, expect);
        }
    };
}

#[test]
fn tokens_short_name_ok_nealy_missing_option_argument() {
    let args = vec!["-ab"];
    //
    let opt_ary = [mkopt(b'a', "", Arg::Yes, 1), mkopt(b'b', "", Arg::No, 2)];
    let opt_ary_sho_idx = [(b'a', 0), (b'b', 1)];
    //
    let lex = {
        assert!(check::check_sorted_opt_ary_and_sho_idx_ary_with(
            &opt_ary,
            &opt_ary_sho_idx
        ));
        Lex::create_with(&opt_ary, &opt_ary_sho_idx)
    };
    let tokens = match lex.tokens_from(&args) {
        Ok(t) => t,
        _ => unreachable!(),
    };
    //
    check_nv(&tokens, 0, b'a', "", Some("b"), 1);
    //
    match tokens.namevals.get(1) {
        Some(_) => unreachable!(),
        _ => {}
    }
    //
    assert_eq!(tokens.double_m, false);
}

#[test]
fn tokens_short_name_ok_nealy_missing_option_argument_2() {
    let args = vec!["-a", "-b"];
    //
    let opt_ary = [mkopt(b'a', "", Arg::Yes, 1), mkopt(b'b', "", Arg::No, 2)];
    let opt_ary_sho_idx = [(b'a', 0), (b'b', 1)];
    //
    let lex = {
        assert!(check::check_sorted_opt_ary_and_sho_idx_ary_with(
            &opt_ary,
            &opt_ary_sho_idx
        ));
        Lex::create_with(&opt_ary, &opt_ary_sho_idx)
    };
    let tokens = match lex.tokens_from(&args) {
        Ok(t) => t,
        _ => unreachable!(),
    };
    //
    check_nv(&tokens, 0, b'a', "", Some("-b"), 1);
    //
    match tokens.namevals.get(1) {
        Some(_) => unreachable!(),
        _ => {}
    }
}
