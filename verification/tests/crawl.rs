use rex::args::parse_args;
use rex::crawl::{
    first_values, fresh_output_name, has_wanted_extension, holds, is_same_site, keep_media,
    output_name, parse_extensions, present_values, scan_page, thread_count, Frontier, Link,
    PageFindings,
};
use rex::dispatch::{
    dispatch, dispatch_carve, dispatch_diskinfo, dispatch_gallery, dispatch_pdf, dispatch_setting,
    find_word, line_limit, Action, SettingAction, Topic,
};
use rex::sorted::sort_unique;

fn strings(list: &[&str]) -> Vec<String> {
    list.iter().map(|s| s.to_string()).collect()
}

fn link(text: &str, path: &str, scheme: &str, host: Option<&str>) -> Link {
    Link {
        text: text.to_string(),
        path: path.to_string(),
        scheme: scheme.to_string(),
        host: host.map(|h| h.to_string()),
        bare: text.to_string(),
    }
}

const PAGE: &str = "<html><head><link href=\"/style.CSS\"><script src=\"app.js\"></script></head>\
<body><a href=\"/docs/paper.pdf#page=2\">paper</a><a href=\"next.html#top\">next</a>\
<a href=\"https://elsewhere.example/x.pdf\">far</a><a>bare</a>\
<img src=\"/img/logo.PNG\" data-src=\"/img/big.png\"><a href=\"http://site.example/plain\">http</a>\
<a href=\"/docs/paper.pdf\">again</a><video data-video=\"clip.mp4\"></video>\
<a href=\"mailto:someone@site.example\">mail</a></body></html>";

#[test]
fn values_are_flattened_in_order() {
    let page = vec![
        vec![vec![Some("a".to_string()), None], vec![None, Some("b".to_string())]],
        vec![],
        vec![vec![], vec![Some("c".to_string()), Some("d".to_string())]],
    ];
    assert_eq!(present_values(&page), strings(&["a", "b", "c", "d"]));
    assert_eq!(first_values(&page[0]), strings(&["a"]));
    assert_eq!(first_values(&page[2]), strings(&["c"]));
    assert!(first_values(&page[1]).is_empty());
    assert!(present_values(&Vec::new()).is_empty());
}

#[test]
fn extensions_are_matched_at_the_end_of_the_path() {
    let exts = strings(&["pdf", "png"]);
    assert!(has_wanted_extension("/a/b.pdf", &exts));
    assert!(has_wanted_extension(".png", &exts));
    assert!(!has_wanted_extension("/a/bpdf", &exts));
    assert!(!has_wanted_extension("pdf", &exts));
    assert!(!has_wanted_extension("/a/b.pdf/", &exts));
    assert!(!has_wanted_extension("/a/b.PDF", &exts));
    assert!(!has_wanted_extension("", &exts));
    assert!(!has_wanted_extension("/a/b.pdf", &[]));
    // An empty extension asks for a path that ends with a dot.
    assert!(has_wanted_extension("/a/b.", &strings(&[""])));
}

#[test]
fn files_are_kept_once() {
    let exts = strings(&["pdf"]);
    let mut found = strings(&["https://s/x.pdf"]);
    let a = link("https://s/a.pdf", "/a.pdf", "https", Some("s"));
    keep_media(&mut found, &a, "/a.pdf", &exts);
    keep_media(&mut found, &a, "/a.pdf", &exts);
    let x = link("https://s/x.pdf", "/x.pdf", "https", Some("s"));
    keep_media(&mut found, &x, "/x.pdf", &exts);
    let h = link("https://s/h.html", "/h.html", "https", Some("s"));
    keep_media(&mut found, &h, "/h.html", &exts);
    // The path in lower case is what counts, whatever the address says.
    let upper = link("https://s/U.PDF", "/U.PDF", "https", Some("s"));
    keep_media(&mut found, &upper, "/u.pdf", &exts);
    keep_media(&mut found, &upper, "/U.PDF", &exts);
    assert_eq!(found, strings(&["https://s/x.pdf", "https://s/a.pdf", "https://s/U.PDF"]));
    assert!(holds(&found, "https://s/a.pdf"));
    assert!(!holds(&found, "https://s/b.pdf"));
}

#[test]
fn links_stay_on_the_site() {
    let page = link("https://site.example/", "/", "https", Some("site.example"));
    let same = link("https://site.example/a", "/a", "https", Some("site.example"));
    let other_scheme = link("http://site.example/a", "/a", "http", Some("site.example"));
    let other_host = link("https://far.example/a", "/a", "https", Some("far.example"));
    let no_host = link("mailto:x@site.example", "x@site.example", "mailto", None);
    assert!(is_same_site(&same, &page, "https://site.example"));
    assert!(!is_same_site(&other_scheme, &page, "https://site.example"));
    assert!(!is_same_site(&other_host, &page, "https://site.example"));
    assert!(!is_same_site(&no_host, &page, "https://site.example"));
    // A host that is the site as it was given is let through.
    assert!(is_same_site(&other_host, &page, "far.example"));
    let hostless = link("data:x", "x", "data", None);
    assert!(!is_same_site(&same, &hostless, "s"));
    assert!(!is_same_site(&no_host, &hostless, "s"));
}

#[test]
fn a_page_gives_files_and_links() {
    let already = strings(&["https://site.example/old.pdf"]);
    let exts = strings(&["pdf", "png", "css"]);
    let findings = scan_page(
        "https://site.example/dir/index.html",
        PAGE,
        &already,
        &exts,
        "https://site.example",
    )
    .expect("a page that can be crawled");
    assert_eq!(
        findings.found,
        strings(&[
            "https://site.example/old.pdf",
            "https://site.example/docs/paper.pdf#page=2",
            "https://elsewhere.example/x.pdf",
            "https://site.example/docs/paper.pdf",
            "https://site.example/style.CSS",
            "https://site.example/img/logo.PNG",
            "https://site.example/img/big.png",
        ])
    );
    assert_eq!(
        findings.new_urls,
        strings(&[
            "https://site.example/docs/paper.pdf",
            "https://site.example/dir/next.html",
            "https://site.example/docs/paper.pdf",
        ])
    );
}

#[test]
fn a_page_without_an_address_cannot_be_crawled() {
    assert!(scan_page("not an address", PAGE, &[], &[], "x").is_none());
    assert!(scan_page("", PAGE, &[], &[], "x").is_none());
    // A page without a host can be read as long as none of its links can.
    assert!(scan_page("data:text/html,x", PAGE, &[], &[], "x").is_none());
    let quiet = scan_page("data:text/html,x", "<p>no links</p>", &[], &[], "x").expect("findings");
    assert!(quiet.found.is_empty() && quiet.new_urls.is_empty());
}

#[test]
fn frontier_hands_out_pages_from_the_end() {
    let mut frontier = Frontier::new("https://s/".to_string());
    assert!(!frontier.is_done());
    assert_eq!(frontier.next_batch(10), strings(&["https://s/"]));
    assert!(frontier.is_done());
    frontier.absorb(PageFindings {
        found: strings(&["f1", "f2", "f1"]),
        new_urls: strings(&["https://s/a", "https://s/", "https://s/b", "https://s/a"]),
    });
    assert_eq!(frontier.pending, strings(&["https://s/a", "https://s/b"]));
    assert_eq!(frontier.visited, strings(&["https://s/"]));
    assert_eq!(frontier.found, strings(&["f1", "f2"]));
    assert_eq!(frontier.next_batch(1), strings(&["https://s/b"]));
    assert_eq!(frontier.next_batch(0), Vec::<String>::new());
    frontier.absorb(PageFindings { found: strings(&["f0", "f2"]), new_urls: strings(&["https://s/b"]) });
    assert_eq!(frontier.pending, strings(&["https://s/a"]));
    assert_eq!(frontier.next_batch(5), strings(&["https://s/a"]));
    assert!(frontier.is_done());
    assert_eq!(frontier.finish(), strings(&["f0", "f1", "f2"]));
}

#[test]
fn a_page_visited_before_uses_up_a_place_in_the_batch() {
    let mut frontier = Frontier {
        pending: strings(&["c", "b", "a", "a"]),
        visited: strings(&["b"]),
        found: Vec::new(),
    };
    // `a`, then `a` again (dropped), then `b` (dropped): three places.
    assert_eq!(frontier.next_batch(3), strings(&["a"]));
    assert_eq!(frontier.pending, strings(&["c"]));
    assert_eq!(frontier.visited, strings(&["b", "a"]));
}

#[test]
fn sorting_drops_repetitions() {
    assert_eq!(sort_unique(&strings(&["b", "a", "b", "", "a"])), strings(&["", "a", "b"]));
    assert!(sort_unique(&[]).is_empty());
}

#[test]
fn settings_of_a_crawl() {
    assert_eq!(parse_extensions("pdf, PNG ,Jpg"), strings(&["pdf", "png", "jpg"]));
    assert_eq!(parse_extensions(""), strings(&[""]));
    assert_eq!(parse_extensions(" a ,, b"), strings(&["a", "", "b"]));
    assert_eq!(thread_count(Some("4")), 4);
    assert_eq!(thread_count(Some("0")), 0);
    assert_eq!(thread_count(Some("four")), 10);
    assert_eq!(thread_count(Some("-1")), 10);
    assert_eq!(thread_count(None), 10);
    assert_eq!(output_name("abc"), "abc.txt");
    let name = fresh_output_name();
    assert_eq!(name.len(), 40);
    assert!(name.ends_with(".txt"));
    assert_ne!(name, fresh_output_name());
}

fn act(list: &[&str]) -> Action {
    dispatch(&strings(list))
}

#[test]
fn commands_of_the_program() {
    assert_eq!(act(&["rex"]), Action::Usage { topic: Topic::Program, fatal: true });
    assert_eq!(act(&[]), Action::Usage { topic: Topic::Program, fatal: true });
    assert_eq!(act(&["rex", "help"]), Action::Help);
    assert_eq!(act(&["rex", "carve"]), Action::Usage { topic: Topic::Carve, fatal: false });
    assert_eq!(act(&["rex", "carve", "disk.img", "--all"]), Action::Carve);
    assert_eq!(act(&["rex", "file", "x"]), Action::File);
    assert_eq!(act(&["rex", "what"]), Action::Unknown { topic: Topic::Program, word: 1, fatal: true });
    assert_eq!(act(&["rex", "ssl", "dump"]), Action::Usage { topic: Topic::Ssl, fatal: true });
    assert_eq!(act(&["rex", "ssl", "dump", "a.org"]), Action::SslDump { domain: 3 });
    assert_eq!(
        act(&["rex", "ssl", "other", "a.org"]),
        Action::Unknown { topic: Topic::Ssl, word: 1, fatal: false }
    );
    assert_eq!(act(&["rex", "net"]), Action::Usage { topic: Topic::Net, fatal: true });
    assert_eq!(act(&["rex", "net", "log"]), Action::NetLog);
    assert_eq!(
        act(&["rex", "net", "x"]),
        Action::Unknown { topic: Topic::Net, word: 1, fatal: false }
    );
    assert_eq!(act(&["rex", "web"]), Action::Usage { topic: Topic::Web, fatal: true });
    assert_eq!(act(&["rex", "web", "react"]), Action::Usage { topic: Topic::React, fatal: true });
    assert_eq!(act(&["rex", "web", "react", "x"]), Action::Nothing);
    assert_eq!(
        act(&["rex", "web", "vue"]),
        Action::Unknown { topic: Topic::Web, word: 1, fatal: false }
    );
}

#[test]
fn commands_of_the_journal() {
    assert_eq!(act(&["rex", "reg"]), Action::Usage { topic: Topic::Reg, fatal: false });
    assert_eq!(act(&["rex", "reg", "systemd"]), Action::Usage { topic: Topic::Systemd, fatal: false });
    assert_eq!(
        act(&["rex", "reg", "windows"]),
        Action::Unknown { topic: Topic::Reg, word: 2, fatal: false }
    );
    assert_eq!(
        act(&["rex", "reg", "systemd", "extract"]),
        Action::Extract { lines: 100, grouped: false }
    );
    assert_eq!(
        act(&["rex", "reg", "systemd", "extract", "-group", "-n", "25"]),
        Action::Extract { lines: 25, grouped: true }
    );
    assert_eq!(act(&["rex", "reg", "systemd", "scan", "-n", "x"]), Action::Scan { lines: 100 });
    assert_eq!(act(&["rex", "reg", "systemd", "scan", "-n"]), Action::Scan { lines: 100 });
    assert_eq!(
        act(&["rex", "reg", "systemd", "scan", "-n", "7", "-n", "9"]),
        Action::Scan { lines: 7 }
    );
    assert_eq!(act(&["rex", "reg", "systemd", "deepscan", "--save"]), Action::Deepscan);
    assert_eq!(act(&["rex", "reg", "systemd", "sshfail"]), Action::SshFail);
    assert_eq!(
        act(&["rex", "reg", "systemd", "purge"]),
        Action::Unknown { topic: Topic::Systemd, word: 3, fatal: false }
    );
    let args = strings(&["a", "-n", "b", "-n"]);
    assert_eq!(find_word(&args, "-n"), 1);
    assert_eq!(find_word(&args, "b"), 2);
    assert_eq!(find_word(&args, "z"), 4);
    assert_eq!(line_limit(&strings(&["-n", "12"])), 12);
    assert_eq!(line_limit(&strings(&["12"])), 100);
}

#[test]
fn commands_of_domains() {
    assert_eq!(act(&["rex", "domain"]), Action::Usage { topic: Topic::Domain, fatal: true });
    assert_eq!(act(&["rex", "domain", "mail"]), Action::Usage { topic: Topic::Mail, fatal: true });
    assert_eq!(
        act(&["rex", "domain", "mail", "scan"]),
        Action::Usage { topic: Topic::MailScan, fatal: false }
    );
    assert_eq!(act(&["rex", "domain", "mail", "scan", "a.org"]), Action::MailScan { domain: 4 });
    assert_eq!(
        act(&["rex", "domain", "mail", "send"]),
        Action::Unknown { topic: Topic::Mail, word: 3, fatal: false }
    );
    assert_eq!(
        act(&["rex", "domain", "typosquat"]),
        Action::Usage { topic: Topic::Typosquat, fatal: true }
    );
    assert_eq!(act(&["rex", "domain", "typosquat", "a.org"]), Action::Typosquat { first: 3 });
    assert_eq!(
        act(&["rex", "domain", "whois"]),
        Action::Unknown { topic: Topic::Domain, word: 1, fatal: false }
    );
}

#[test]
fn commands_outside_the_main_list() {
    assert_eq!(
        dispatch_pdf(&strings(&["rex", "pdf", "extract"])),
        Action::Usage { topic: Topic::Pdf, fatal: true }
    );
    assert_eq!(
        dispatch_pdf(&strings(&["rex", "pdf", "extract", "a.pdf"])),
        Action::PdfExtract { path: 3 }
    );
    assert_eq!(
        dispatch_pdf(&strings(&["rex", "pdf", "merge", "a.pdf"])),
        Action::Unknown { topic: Topic::Pdf, word: 1, fatal: false }
    );
    assert_eq!(dispatch_diskinfo(&strings(&["rex", "diskinfo"])), Action::ListDisks);
    assert_eq!(
        dispatch_diskinfo(&strings(&["rex", "diskinfo", "x"])),
        Action::Unknown { topic: Topic::Diskinfo, word: 2, fatal: true }
    );
    assert_eq!(
        dispatch_carve(&strings(&["rex", "carve"])),
        Action::Usage { topic: Topic::Carve, fatal: false }
    );
    assert_eq!(dispatch_carve(&strings(&["rex", "carve", "x.img"])), Action::Carve);
}

#[test]
fn commands_that_work_on_a_setting() {
    let args = parse_args(strings(&["fswatch", "--path=/tmp", "--help"]));
    assert_eq!(dispatch_setting(&args, "path"), SettingAction::Help);
    let args = parse_args(strings(&["fswatch", "--path=/tmp"]));
    assert_eq!(dispatch_setting(&args, "path"), SettingAction::Run);
    assert_eq!(dispatch_setting(&args, "base-url"), SettingAction::Missing);
    let args = parse_args(strings(&["gallery", "https://2ch.hk/b/res/1.html"]));
    assert_eq!(dispatch_gallery(&args), SettingAction::Run);
    let args = parse_args(strings(&["gallery", ""]));
    assert_eq!(dispatch_gallery(&args), SettingAction::Missing);
    let args = parse_args(strings(&["gallery"]));
    assert_eq!(dispatch_gallery(&args), SettingAction::Missing);
    let args = parse_args(strings(&["gallery", "x", "--help"]));
    assert_eq!(dispatch_gallery(&args), SettingAction::Help);
}
