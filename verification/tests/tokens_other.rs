use flood_tide::check;
use flood_tide::Arg;
use flood_tide::Lex;
use flood_tide::LexConfig;
use flood_tide::NameVal;
use flood_tide::Opt;
use flood_tide::OptNum;
use flood_tide::Tokens;

fn mkopt(sho: u8, lon: &str, has: Arg, num: OptNum) -> Opt {
    Opt {
        sho,
        lon: lon.to_string(),
        has,
        num,
    }
}

fn stop_at_free_config() -> LexConfig {
    LexConfig {
        abbreviate: false,
        long_only: false,
        single_error: false,
        stop_at_mm: true,
        stop_at_free: true,
    }
}

fn check_nv(tokens: &Tokens, idx: usize, sho: u8, lon: &str, val: Option<&str>, num: OptNum) {
    let nmvl: &NameVal = match tokens.namevals.get(idx) {
        Some(v) => v,
        None => unreachable!(),
    };
    assert_eq!(nmvl.opt.sho, sho);
    assert_eq!(nmvl.opt.lon.as_str(), lon);
    assert_eq!(nmvl.val.as_deref(), val);
    assert_eq!(nmvl.opt.num, num);
}

fn check_free(tokens: &Tokens, idx: usize, val: &str) {
    let free = match tokens.free.get(idx) {
        Some(v) => v,
        None => unreachable!(),
    };
    assert_eq!(free.as_str(), val);
}

#[test]
fn tokens_free() {
    let args = vec!["-a", "other1", "other2"];
    //
    let opt_ary = [mkopt(b'a', "", Arg::No, 1)];
    let opt_ary_sho_idx = [(b'a', 0)];
    //
    let lex = {
        assert!(check::check_sorted_opt_ary_and_sho_idx_ary_with(
            &opt_ary,
            &opt_ary_sho_idx
        ));
        Lex::create_with(&opt_ary, &opt_ary_sho_idx)
    };
    let tokens = match lex.tokens_from(&args) {
        Ok(t) => t,
        _ => unreachable!(),
    };
    //
    check_nv(&tokens, 0, b'a', "", None, 1);
    //
    check_free(&tokens, 0, "other1");
    check_free(&tokens, 1, "other2");
    //
    assert!(!tokens.double_m);
}

#[test]
fn tokens_stop_at_first_free() {
    let args = vec!["-a", "other1", "a", "-a", "other2"];
    //
    let opt_ary = [mkopt(b'a', "", Arg::No, 1)];
    let opt_ary_sho_idx = [(b'a', 0)];
    //
    let lex = {
        assert!(check::check_sorted_opt_ary_and_sho_idx_ary_with(
            &opt_ary,
            &opt_ary_sho_idx
        ));
        Lex::create_with(&opt_ary, &opt_ary_sho_idx).with_config(stop_at_free_config())
    };
    let tokens = match lex.tokens_from(&args) {
        Ok(t) => t,
        Err(e) => {
            assert_eq!(e.message(), "");
            unreachable!();
        }
    };
    //
    check_nv(&tokens, 0, b'a', "", None, 1);
    //
    if let Some(_) = tokens.namevals.get(1) {
        unreachable!()
    };
    //
    check_free(&tokens, 0, "other1");
    check_free(&tokens, 1, "a");
    check_free(&tokens, 2, "-a");
    check_free(&tokens, 3, "other2");
    //
    assert_eq!(tokens.double_m, false);
}

#[test]
fn tokens_stop_at_double_minus() {
    let args = vec!["-a", "--", "other1", "a", "-a", "other2"];
    //
    let opt_ary = [mkopt(b'a', "", Arg::No, 1)];
    let opt_ary_sho_idx = [(b'a', 0)];
    //
    let lex = {
        assert!(check::check_sorted_opt_ary_and_sho_idx_ary_with(
            &opt_ary,
            &opt_ary_sho_idx
        ));
        Lex::create_with(&opt_ary, &opt_ary_sho_idx)
    };
    let tokens = match lex.tokens_from(&args) {
        Ok(t) => t,
        Err(e) => {
            assert_eq!(e.message(), "");
            unreachable!();
        }
    };
    //
    check_nv(&tokens, 0, b'a', "", None, 1);
    //
    if tokens.namevals.get(1).is_some() {
        unreachable!()
    };
    //
    check_free(&tokens, 0, "other1");
    check_free(&tokens, 1, "a");
    check_free(&tokens, 2, "-a");
    check_free(&tokens, 3, "other2");
    //
    assert!(tokens.double_m);
}

#[test]
fn tokens_stop_at_double_minus_2() {
    let args = vec!["-a", "other1", "--", "a", "-a", "other2"];
    //
    let opt_ary = [mkopt(b'a', "", Arg::No, 1)];
    let opt_ary_sho_idx = [(b'a', 0)];
    //
    let lex = {
        assert!(check::check_sorted_opt_ary_and_sho_idx_ary_with(
            &opt_ary,
            &opt_ary_sho_idx
        ));
        Lex::create_with(&opt_ary, &opt_ary_sho_idx)
    };
    let tokens = match lex.tokens_from(&args) {
        Ok(t) => t,
        Err(e) => {
            assert_eq!(e.message(), "");
            unreachable!();
        }
    };
    //
    check_nv(&tokens, 0, b'a', "", None, 1);
    //
    if tokens.namevals.get(1).is_some() {
        unreachable!()
    };
    //
    check_free(&tokens, 0, "other1");
    check_free(&tokens, 1, "a");
    check_free(&tokens, 2, "-a");
    check_free(&tokens, 3, "other2");
    //
    assert_eq!(tokens.double_m, true);
}

#[test]
fn tokens_stop_at_double_minus_3() {
    let args = vec!["-a", "other1", "--", "a", "-a", "other2"];
    //
    let opt_ary = [mkopt(b'a', "", Arg::No, 1)];
    let opt_ary_sho_idx = [(b'a', 0)];
    //
    let lex = {
        assert!(check::check_sorted_opt_ary_and_sho_idx_ary_with(
            &opt_ary,
            &opt_ary_sho_idx
        ));
        Lex::create_with(&opt_ary, &opt_ary_sho_idx)
    };
    let tokens = match lex.tokens_from(&args) {
        Ok(t) => t,
        Err(e) => {
            assert_eq!(e.message(), "");
            unreachable!();
        }
    };
    //
    check_nv(&tokens, 0, b'a', "", None, 1);
    //
    if tokens.namevals.get(1).is_some() {
        unreachable!()
    };
    //
    check_free(&tokens, 0, "other1");
    check_free(&tokens, 1, "a");
    check_free(&tokens, 2, "-a");
    check_free(&tokens, 3, "other2");
    //
    assert_eq!(tokens.double_m, true);
}

#[test]
fn tokens_stop_at_double_minus_4() {
    let args = vec!["-a", "other1", "a", "-a", "--", "other2"];
    //
    let opt_ary = [mkopt(b'a', "", Arg::No, 1)];
    let opt_ary_sho_idx = [(b'a', 0)];
    //
    assert!(check::check_sorted_opt_ary_and_sho_idx_ary_with(
        &opt_ary,
        &opt_ary_sho_idx
    ));
    {
        let lex = Lex::create_with(&opt_ary, &opt_ary_sho_idx);
        let tokens = match lex.tokens_from(&args) {
            Ok(t) => t,
            Err(e) => {
                assert_eq!(e.message(), "");
                unreachable!();
            }
        };
        //
        check_nv(&tokens, 0, b'a', "", None, 1);
        check_nv(&tokens, 1, b'a', "", None, 1);
        //
        if tokens.namevals.get(2).is_some() {
            unreachable!()
        };
        //
        check_free(&tokens, 0, "other1");
        check_free(&tokens, 1, "a");
        check_free(&tokens, 2, "other2");
        //
        assert_eq!(tokens.double_m, true);
    }
    {
        let lex = Lex::create_with(&opt_ary, &opt_ary_sho_idx).with_config(stop_at_free_config());
        let tokens = match lex.tokens_from(&args) {
            Ok(t) => t,
            Err(e) => {
                assert_eq!(e.message(), "");
                unreachable!();
            }
        };
        //
        check_nv(&tokens, 0, b'a', "", None, 1);
        //
        if tokens.namevals.get(1).is_some() {
            unreachable!()
        };
        //
        check_free(&tokens, 0, "other1");
        check_free(&tokens, 1, "a");
        check_free(&tokens, 2, "-a");
        check_free(&tokens, 3, "--");
        check_free(&tokens, 4, "other2");
        //
        assert_eq!(tokens.double_m, false);
    }
}
