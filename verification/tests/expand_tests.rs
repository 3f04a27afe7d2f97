use rust_svg::expand::{lsys_apply_rules, rules_apply_basic, rules_minimize};
use rust_svg::grammar::{is_action_char, LSys, Rules};

fn rules_of(pairs: &[(char, &str)]) -> Rules {
    let mut rules = Rules::new();
    for (symbol, replacement) in pairs {
        rules.insert(*symbol, replacement);
    }
    rules
}

fn lsys_of(start: &str, angle: f64, rules: Rules, post_rules: Rules) -> LSys {
    LSys {
        title: String::from("test"),
        refs: Vec::new(),
        start: String::from(start),
        angle_bits: angle.to_bits(),
        order: vec![1, 2, 3],
        rules,
        post_rules,
    }
}

#[test]
fn rules_table_keeps_the_last_replacement() {
    let mut rules = Rules::new();
    assert_eq!(rules.get('X'), None);
    rules.insert('X', "F");
    rules.insert('Y', "");
    rules.insert('X', "FX");
    assert_eq!(rules.get('X').map(|s| s.as_str()), Some("FX"));
    assert_eq!(rules.get('Y').map(|s| s.as_str()), Some(""));
    assert_eq!(rules.get('Z'), None);
}

#[test]
fn rules_table_takes_symbols_beyond_ascii() {
    let mut rules = Rules::new();
    rules.insert('\u{3b1}', "F\u{3b2}");
    assert_eq!(rules.get('\u{3b1}').map(|s| s.as_str()), Some("F\u{3b2}"));
    assert_eq!(rules.get('\u{3b2}'), None);
    assert_eq!(rules_apply_basic(&rules, "\u{3b1}\u{3b1}", 1), "F\u{3b2}F\u{3b2}");
}

#[test]
fn action_characters_are_the_seven() {
    for c in ['F', 'f', '+', '-', '[', ']', '|'] {
        assert!(is_action_char(c));
    }
    for c in ['X', 'A', ' ', '{', '}', '(', '0', 'G', '\n', '\u{3b1}'] {
        assert!(!is_action_char(c));
    }
}

#[test]
fn zero_generations_give_the_start_back() {
    let rules = rules_of(&[('X', "F[+X][-X]"), ('F', "FF")]);
    assert_eq!(rules_apply_basic(&rules, "X", 0), "X");
    assert_eq!(rules_apply_basic(&rules, "FXF", 0), "FXF");
    assert_eq!(rules_apply_basic(&rules, "", 0), "");
}

#[test]
fn negative_order_gives_the_start_back() {
    let rules = rules_of(&[('X', "F[+X][-X]")]);
    assert_eq!(rules_apply_basic(&rules, "X", -1), "X");
    assert_eq!(rules_apply_basic(&rules, "X", i32::MIN), "X");
}

#[test]
fn one_pass_rewrites_every_symbol_in_order() {
    let rules = rules_of(&[('X', "-YF+XFX+FY-"), ('Y', "+XF-YFY-FX+")]);
    assert_eq!(rules_apply_basic(&rules, "X", 1), "-YF+XFX+FY-");
    assert_eq!(rules_apply_basic(&rules, "XY", 1), "-YF+XFX+FY-+XF-YFY-FX+");
    assert_eq!(
        rules_apply_basic(&rules, "X", 2),
        "-+XF-YFY-FX+F+-YF+XFX+FY-F-YF+XFX+FY-+F+XF-YFY-FX+-"
    );
}

#[test]
fn koch_curve_grows_by_generation() {
    let rules = rules_of(&[('F', "F+F--F+F")]);
    assert_eq!(rules_apply_basic(&rules, "F", 1), "F+F--F+F");
    assert_eq!(
        rules_apply_basic(&rules, "F", 2),
        "F+F--F+F+F+F--F+F--F+F--F+F+F+F--F+F"
    );
    assert_eq!(rules_apply_basic(&rules, "+F--F--F", 1), "+F+F--F+F--F+F--F+F--F+F--F+F");
}

#[test]
fn symbol_without_rule_passes_through() {
    let rules = Rules::new();
    assert_eq!(rules_apply_basic(&rules, "F", 3), "F");
    let rules = rules_of(&[('A', "AB")]);
    assert_eq!(rules_apply_basic(&rules, "AQ", 2), "ABBQ");
}

#[test]
fn empty_replacement_erases_the_symbol() {
    let rules = rules_of(&[('X', "")]);
    assert_eq!(rules_apply_basic(&rules, "FXF", 1), "FF");
    assert_eq!(rules_apply_basic(&rules, "X", 5), "");
}

#[test]
fn length_does_not_shrink_without_erasing_rules() {
    let rules = rules_of(&[('X', "F[+X][-X]"), ('F', "FF"), ('Q', "Q")]);
    let mut last = 0;
    for order in 0..6 {
        let len = rules_apply_basic(&rules, "XQ", order).chars().count();
        assert!(len >= last);
        last = len;
    }
    assert_eq!(rules_apply_basic(&rules, "XQ", 0).chars().count(), 2);
    assert_eq!(rules_apply_basic(&rules, "XQ", 1).chars().count(), 10);
    assert_eq!(rules_apply_basic(&rules, "XQ", 2).chars().count(), 27);
}

#[test]
fn length_shrinks_under_an_erasing_rule() {
    let rules = rules_of(&[('X', "")]);
    assert_eq!(rules_apply_basic(&rules, "X", 0).chars().count(), 1);
    assert_eq!(rules_apply_basic(&rules, "X", 1).chars().count(), 0);
}

#[test]
fn minimize_keeps_only_action_characters() {
    assert_eq!(rules_minimize(String::from("F[+X][-X]")), "F[+][-]");
    assert_eq!(rules_minimize(String::from("-YF+XFX+FY-")), "-F+F+F-");
    assert_eq!(rules_minimize(String::from("Ff+-[]|")), "Ff+-[]|");
    assert_eq!(rules_minimize(String::from("XYZ abc {}")), "");
    assert_eq!(rules_minimize(String::from("")), "");
    assert_eq!(rules_minimize(String::from("\u{3b1}F\u{3b2}|")), "F|");
}

#[test]
fn minimize_twice_is_minimize_once() {
    for s in ["F[+X][-X]", "", "XXXX", "Ff+-[]|", "a|b|c", "-YF+XFX+FY-"] {
        let once = rules_minimize(String::from(s));
        let twice = rules_minimize(once.clone());
        assert_eq!(twice, once);
    }
}

#[test]
fn elaborate_without_rules_keeps_a_single_line() {
    let lsys = lsys_of("F", 90.0, Rules::new(), Rules::new());
    assert_eq!(rules_apply_basic(&lsys.rules, &lsys.start, 3), "F");
    assert_eq!(lsys_apply_rules(&lsys, 3), "F");
}

#[test]
fn elaborate_drops_symbols_left_over() {
    let lsys = lsys_of("X", 30.0, rules_of(&[('X', "F[+X][-X]")]), Rules::new());
    assert_eq!(rules_apply_basic(&lsys.rules, &lsys.start, 1), "F[+X][-X]");
    assert_eq!(lsys_apply_rules(&lsys, 1), "F[+][-]");
    assert_eq!(lsys_apply_rules(&lsys, 2), "F[+F[+][-]][-F[+][-]]");
}

#[test]
fn elaborate_at_zero_generations() {
    let lsys = lsys_of("F+X", 60.0, rules_of(&[('X', "FX")]), Rules::new());
    assert_eq!(lsys_apply_rules(&lsys, 0), "F+");
    let lsys = lsys_of("F+F", 60.0, rules_of(&[('F', "FF")]), Rules::new());
    assert_eq!(lsys_apply_rules(&lsys, 0), "F+F");
}

#[test]
fn post_rules_run_once_whatever_the_order() {
    let rules = rules_of(&[('A', "A-B--B+A++AA+B-"), ('B', "+A-BB--B-A++A+B")]);
    let post = rules_of(&[('A', "F"), ('B', "F")]);
    let lsys = lsys_of("A", 60.0, rules, post);
    assert_eq!(lsys_apply_rules(&lsys, 0), "F");
    assert_eq!(lsys_apply_rules(&lsys, 1), "F-F--F+F++FF+F-");
    let post = rules_of(&[('A', "AF")]);
    let lsys = lsys_of("A", 60.0, Rules::new(), post);
    assert_eq!(lsys_apply_rules(&lsys, 0), "F");
    assert_eq!(lsys_apply_rules(&lsys, 4), "F");
}

#[test]
fn post_rules_may_change_the_start_at_zero_generations() {
    let post = rules_of(&[('F', "F+F")]);
    let lsys = lsys_of("F", 60.0, Rules::new(), post);
    assert_eq!(lsys_apply_rules(&lsys, 0), "F+F");
}

#[test]
fn grammar_record_carries_its_angle() {
    let lsys = lsys_of("F", 22.5, Rules::new(), Rules::new());
    assert_eq!(f64::from_bits(lsys.angle_bits), 22.5);
    let copy = lsys.clone();
    assert_eq!(copy, lsys);
    assert_eq!(copy.order, vec![1, 2, 3]);
}

#[test]
fn rules_table_lists_each_symbol_once() {
    let mut rules = Rules::new();
    assert_eq!(rules.symbols(), Vec::<char>::new());
    rules.insert('X', "F");
    rules.insert('Y', "X");
    rules.insert('X', "FX");
    rules.insert('\u{3b1}', "");
    let mut symbols = rules.symbols();
    symbols.sort();
    assert_eq!(symbols, vec!['X', 'Y', '\u{3b1}']);
}

#[test]
fn rules_tables_compare_by_their_rules() {
    let a = rules_of(&[('X', "F"), ('Y', "G")]);
    let b = rules_of(&[('Y', "G"), ('X', "F")]);
    let c = rules_of(&[('X', "F"), ('Y', "H")]);
    assert_eq!(a, b);
    assert_ne!(a, c);
}
