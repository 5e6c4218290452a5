use rex::sorted::{chars_lt, insert_sorted};
use rex::text::{
    chars_eq, chars_of, contains_char, copy_chars, has_prefix, joined, replace_char, str_eq,
    string_of,
};
use rex::typosquat::{
    all_methods, base_of, bitsquatting, can_list, combo_squatting, generate_list,
    generate_with_methods, homoglyphs, hyphenation, insertion, list_for, method_can_run,
    methods_can_run, missing_dot, neighbor_keys, omission, parse_listing_args, permutation,
    repetition, run_method, split_commas, split_domain, strip_dots, subdomain_attack,
    substitution, tld_swap, unicode_abuse,
};

fn strings(list: &[&str]) -> Vec<String> {
    list.iter().map(|s| s.to_string()).collect()
}

#[test]
fn text_helpers() {
    assert_eq!(chars_of("héllo"), vec!['h', 'é', 'l', 'l', 'o']);
    assert_eq!(string_of(&['a', 'ß', 'c']), "aßc");
    assert_eq!(string_of(&[]), "");
    assert!(str_eq("abc", "abc"));
    assert!(!str_eq("abc", "abd"));
    assert!(!str_eq("abc", "ab"));
    assert!(chars_eq(&['x'], &['x']));
    assert!(!chars_eq(&['x'], &['y']));
    assert!(contains_char(&['a', '.', 'b'], '.'));
    assert!(!contains_char(&['a', 'b'], '.'));
    assert_eq!(replace_char(&['m', 'o', 'm'], 'm', 'n'), vec!['n', 'o', 'n']);
    assert_eq!(copy_chars(&['q', 'r']), vec!['q', 'r']);
    assert!(has_prefix(&['w', 'w', 'w', '.'], &['w', 'w']));
    assert!(!has_prefix(&['w'], &['w', 'w']));
    assert!(has_prefix(&['w'], &[]));
    assert_eq!(joined("ab", "cd"), "abcd");
}

#[test]
fn dictionary_order_is_the_order_of_strings() {
    let words = ["", "a", "ab", "abc", "b", "B", "é", "z", "a-b", "a.b", "о", "o"];
    for a in words {
        for b in words {
            let (ca, cb) = (chars_of(a), chars_of(b));
            assert_eq!(chars_lt(&ca, &cb), a < b, "{:?} < {:?}", a, b);
        }
    }
}

#[test]
fn sorted_insertion_keeps_order_and_drops_repetitions() {
    let mut list: Vec<Vec<char>> = Vec::new();
    for word in ["pear", "apple", "fig", "apple", "zebra", "fig", "a"] {
        insert_sorted(&mut list, chars_of(word));
    }
    let words: Vec<String> = list.iter().map(|w| string_of(w)).collect();
    assert_eq!(words, strings(&["a", "apple", "fig", "pear", "zebra"]));
}

#[test]
fn domain_is_split_at_its_last_dot() {
    assert_eq!(split_domain("example.com"), ("example", "com"));
    assert_eq!(split_domain("www.example.co.uk"), ("www.example.co", "uk"));
    assert_eq!(split_domain("localhost"), ("localhost", ""));
    assert_eq!(split_domain(""), ("", ""));
    assert_eq!(split_domain("."), ("", ""));
    assert_eq!(split_domain("a."), ("a", ""));
    assert_eq!(split_domain(".b"), ("", "b"));
    assert_eq!(split_domain("bücher.de"), ("bücher", "de"));
}

#[test]
fn omission_leaves_out_each_character() {
    assert_eq!(omission("abc"), strings(&["bc", "ac", "ab"]));
    assert_eq!(omission("a"), strings(&[""]));
    assert!(omission("").is_empty());
}

#[test]
fn permutation_exchanges_neighbours() {
    assert_eq!(permutation("abc"), strings(&["bac", "acb"]));
    assert!(permutation("a").is_empty());
    assert_eq!(permutation("éa"), strings(&["aé"]));
}

#[test]
fn substitution_hits_neighbouring_keys() {
    assert_eq!(neighbor_keys('a'), vec!['q', 's', 'z']);
    assert_eq!(neighbor_keys('e'), vec!['w', 'r', 'd']);
    assert_eq!(neighbor_keys('o'), vec!['i', 'p', 'l']);
    assert_eq!(neighbor_keys('m'), vec!['n', 'j', 'k']);
    assert!(neighbor_keys('x').is_empty());
    assert_eq!(
        substitution("me"),
        strings(&["ne", "je", "ke", "mw", "mr", "md"])
    );
    assert!(substitution("xyz").is_empty());
    assert_eq!(substitution("bob"), strings(&["bib", "bpb", "blb"]));
}

#[test]
fn repetition_doubles_each_character() {
    assert_eq!(repetition("abc"), strings(&["aabc", "abbc", "abcc"]));
    assert!(repetition("").is_empty());
}

#[test]
fn missing_dot_after_www() {
    assert_eq!(missing_dot("www.example.com"), strings(&["wwwexample.com"]));
    assert_eq!(missing_dot("www.www.com"), strings(&["wwwwww.com"]));
    assert_eq!(missing_dot("www."), strings(&["www"]));
    assert!(missing_dot("example.com").is_empty());
    assert!(missing_dot("www").is_empty());
    assert!(missing_dot("").is_empty());
}

#[test]
fn homoglyphs_write_digits_for_letters() {
    assert_eq!(
        homoglyphs("oil"),
        strings(&["0il", "o1l", "oi1"])
    );
    assert_eq!(
        homoglyphs("seoul"),
        strings(&["se0ul", "s3oul", "seou1", "5eoul"])
    );
    assert_eq!(homoglyphs("loose"), strings(&["l00se", "loos3", "1oose", "loo5e"]));
    assert!(homoglyphs("xyz").is_empty());
}

#[test]
fn insertion_slips_in_an_x() {
    assert_eq!(insertion("ab"), strings(&["xab", "axb", "abx"]));
    assert_eq!(insertion(""), strings(&["x"]));
}

#[test]
fn tld_swap_goes_through_six_domains() {
    assert_eq!(
        tld_swap("shop"),
        strings(&["shop.com", "shop.net", "shop.org", "shop.co", "shop.info", "shop.xyz"])
    );
}

#[test]
fn hyphenation_goes_between_characters() {
    assert_eq!(hyphenation("abc"), strings(&["a-bc", "ab-c"]));
    assert!(hyphenation("a").is_empty());
    assert!(hyphenation("").is_empty());
}

#[test]
fn subdomain_and_combo_names() {
    assert_eq!(
        subdomain_attack("bank.com"),
        strings(&["bank.com.attacker.com", "login.bank.com"])
    );
    assert_eq!(
        combo_squatting("bank"),
        strings(&["secure-bank", "login-bank", "support-bank", "mail-bank"])
    );
}

#[test]
fn bitsquatting_and_unicode() {
    assert_eq!(bitsquatting("mamba"), strings(&["nanba", "mamda"]));
    assert_eq!(bitsquatting("xyz"), strings(&["xyz", "xyz"]));
    assert_eq!(unicode_abuse("google"), strings(&["g\u{43e}\u{43e}gle"]));
    assert_eq!(unicode_abuse("xyz"), strings(&["xyz"]));
}

#[test]
fn base_has_no_dots() {
    assert_eq!(strip_dots(&chars_of("a.b..c")), chars_of("abc"));
    assert_eq!(base_of("www.example.com"), "wwwexample");
    assert_eq!(base_of("example"), "example");
    assert_eq!(base_of(".com"), "");
}

#[test]
fn methods_know_what_they_can_work_on() {
    assert!(method_can_run("omission", "abc"));
    assert!(!method_can_run("omission", "bücher"));
    assert!(!method_can_run("insertion", "bücher"));
    assert!(!method_can_run("hyphenation", "bücher"));
    assert!(method_can_run("repetition", "bücher"));
    assert!(method_can_run("permutation", "b"));
    assert!(!method_can_run("permutation", ""));
    assert!(method_can_run("omission", ""));
    assert!(method_can_run("nonsense", "bücher"));
    assert!(methods_can_run("bücher.de", &["repetition", "unicode"]));
    assert!(!methods_can_run("bücher.de", &["repetition", "omission"]));
    assert!(!methods_can_run(".de", &["permutation"]));
    assert!(methods_can_run("a.b.de", &[]));
}

#[test]
fn unknown_method_makes_nothing() {
    assert!(run_method("nonsense", "example.com", "example").is_empty());
    assert_eq!(run_method("omission", "ab.com", "ab"), strings(&["b", "a"]));
    assert_eq!(
        run_method("subdomain", "ab.com", "ab"),
        strings(&["ab.com.attacker.com", "login.ab.com"])
    );
}

#[test]
fn generated_names_are_sorted_and_unique() {
    let typos = generate_with_methods("aab.com", &["omission", "repetition"]);
    // omission: ab, ab, aa; repetition: aaab, aaab, aabb
    assert_eq!(typos, strings(&["aa.com", "aaab.com", "aabb.com", "ab.com"]));
}

#[test]
fn names_with_a_dot_keep_it() {
    let typos = generate_with_methods("www.ab.io", &["tldswap", "missingdot", "subdomain"]);
    assert_eq!(
        typos,
        strings(&[
            "login.www.ab.io",
            "www.ab.io.attacker.com",
            "wwwab.co",
            "wwwab.com",
            "wwwab.info",
            "wwwab.io",
            "wwwab.net",
            "wwwab.org",
            "wwwab.xyz",
        ])
    );
}

#[test]
fn domain_without_tld_gets_an_empty_one() {
    assert_eq!(generate_with_methods("ab", &["permutation"]), strings(&["ba."]));
    assert!(generate_with_methods("ab.com", &[]).is_empty());
    assert!(generate_with_methods("ab.com", &["nonsense"]).is_empty());
}

fn expected_for(domain: &str, made: Vec<String>) -> Vec<String> {
    let tld = match domain.rfind('.') {
        Some(dot) => &domain[dot + 1..],
        None => "",
    };
    let mut names: Vec<String> = made
        .into_iter()
        .map(|d| if d.contains('.') { d } else { format!("{}.{}", d, tld) })
        .collect();
    names.sort();
    names.dedup();
    names
}

#[test]
fn all_methods_together() {
    let domain = "www.memo-bank.com";
    let base = "wwwmemo-bank";
    let methods = all_methods();
    let names: Vec<&str> = methods.iter().map(|m| m.as_str()).collect();
    assert_eq!(names.len(), 13);
    let mut made: Vec<String> = Vec::new();
    made.extend(omission(base));
    made.extend(permutation(base));
    made.extend(substitution(base));
    made.extend(repetition(base));
    made.extend(missing_dot(domain));
    made.extend(homoglyphs(base));
    made.extend(insertion(base));
    made.extend(tld_swap(base));
    made.extend(hyphenation(base));
    made.extend(subdomain_attack(domain));
    made.extend(combo_squatting(base));
    made.extend(bitsquatting(base));
    made.extend(unicode_abuse(base));
    let expected = expected_for(domain, made);
    let typos = generate_with_methods(domain, &names);
    assert_eq!(typos, expected);
    assert!(typos.contains(&"wwwmemo-bank.net".to_string()));
    assert!(typos.contains(&"wwwnemo-bank.com".to_string()));
    assert!(typos.contains(&"login.www.memo-bank.com".to_string()));
}

#[test]
fn commas_split_method_names() {
    assert_eq!(split_commas("omission,combo"), strings(&["omission", "combo"]));
    assert_eq!(split_commas("one"), strings(&["one"]));
    assert_eq!(split_commas(""), strings(&[""]));
    assert_eq!(split_commas(",a,,b,"), strings(&["", "a", "", "b", ""]));
    for text in ["a,b", ",", "x,,y", "", "abc"] {
        let expected: Vec<String> = text.split(',').map(|s| s.to_string()).collect();
        assert_eq!(split_commas(text), expected);
    }
}

#[test]
fn listing_arguments() {
    let request = parse_listing_args(&strings(&["example.com"]));
    assert_eq!(request.domain, "example.com");
    assert_eq!(request.methods, all_methods());
    assert!(request.output.is_none());

    let request = parse_listing_args(&strings(&[
        "--method",
        "omission,unicode",
        "--output",
        "out.txt",
        "first.com",
        "second.com",
        "--other",
    ]));
    assert_eq!(request.domain, "first.com");
    assert_eq!(request.methods, strings(&["omission", "unicode"]));
    assert_eq!(request.output.as_deref(), Some("out.txt"));

    // An option at the very end has no value and is ignored.
    let request = parse_listing_args(&strings(&["a.com", "--method"]));
    assert_eq!(request.domain, "a.com");
    assert_eq!(request.methods.len(), 13);
    let request = parse_listing_args(&strings(&["a.com", "--output"]));
    assert!(request.output.is_none());

    // The value of an option is never taken for the domain.
    let request = parse_listing_args(&strings(&["--output", "b.com"]));
    assert_eq!(request.domain, "");
    assert_eq!(request.output.as_deref(), Some("b.com"));
    assert!(!can_list(&request));
}

#[test]
fn list_has_its_output_file() {
    let list = generate_list(strings(&["ab.com", "--method", "hyphenation,combo"])).unwrap();
    assert_eq!(list.domain, "ab.com");
    assert_eq!(list.output_path, "./output/typo/ab.com.txt");
    assert_eq!(
        list.typos,
        strings(&["a-b.com", "login-ab.com", "mail-ab.com", "secure-ab.com", "support-ab.com"])
    );

    let list =
        generate_list(strings(&["--output", "/tmp/x.txt", "ab.com", "--method", "x"])).unwrap();
    assert_eq!(list.output_path, "/tmp/x.txt");
    assert!(list.typos.is_empty());

    assert!(generate_list(strings(&["--method", "omission"])).is_none());
    assert!(generate_list(Vec::new()).is_none());
}

#[test]
fn request_is_checked_before_the_list_is_made() {
    let request = parse_listing_args(&strings(&["bücher.de", "--method", "omission"]));
    assert!(!can_list(&request));
    let request = parse_listing_args(&strings(&["bücher.de", "--method", "repetition"]));
    assert!(can_list(&request));
    let list = list_for(request);
    assert_eq!(list.typos.len(), 6);
    assert_eq!(list.typos[0], "bbücher.de");
}
