use std::collections::VecDeque;

use livefetch::info::modules::{
    all_modules, assemble, fmt_uptime, is_loopback, is_static, module_listing, probe_for,
    push_capped, render, title_line, title_width, InfoLine, LineKind, ModuleColumn, Probe, Reading,
    HIST_LEN,
};

fn field(l: &InfoLine) -> (String, String) {
    match &l.kind {
        LineKind::Field { label, value } => (label.clone(), value.clone()),
        _ => panic!("not a field"),
    }
}

#[test]
fn uptime_formats() {
    assert_eq!(fmt_uptime(0), "0m");
    assert_eq!(fmt_uptime(59), "0m");
    assert_eq!(fmt_uptime(3600), "1h 0m");
    assert_eq!(fmt_uptime(90061), "1d 1h 1m");
    assert_eq!(fmt_uptime(86400 + 120), "1d 2m");
}

#[test]
fn loopback_names() {
    assert!(is_loopback("lo"));
    assert!(is_loopback("lo0"));
    assert!(is_loopback("lo12"));
    assert!(!is_loopback("lo1a"));
    assert!(!is_loopback("l"));
    assert!(!is_loopback("eth0"));
    assert!(!is_loopback("loop"));
}

#[test]
fn history_ring_stays_capped() {
    let mut buf: VecDeque<u64> = VecDeque::new();
    for i in 0..(HIST_LEN as u64 + 5) {
        push_capped(&mut buf, i);
        assert!(buf.len() <= HIST_LEN);
    }
    assert_eq!(buf.len(), HIST_LEN);
    assert_eq!(*buf.front().unwrap(), 5);
    assert_eq!(*buf.back().unwrap(), HIST_LEN as u64 + 4);
}

#[test]
fn title_and_separator() {
    match title_line("alice", Some("box")).kind {
        LineKind::Title(s) => assert_eq!(s, "alice@box"),
        _ => panic!("not a title"),
    }
    match title_line("alice", None).kind {
        LineKind::Title(s) => assert_eq!(s, "alice@host"),
        _ => panic!("not a title"),
    }
    assert_eq!(title_width("alice", Some("box")), 9);
    assert_eq!(title_width("a", None), 8);
    assert_eq!(title_width("jörg", Some("höst")), 11);
}

#[test]
fn render_known_modules() {
    let k = render("kernel", &Reading::Kernel { name: Some("Linux".to_string()), version: None })
        .unwrap();
    assert_eq!(k.len(), 1);
    assert_eq!(field(&k[0]), ("Kernel".to_string(), "Linux ?".to_string()));
    let u = render("uptime", &Reading::Seconds(3660)).unwrap();
    assert_eq!(field(&u[0]), ("Uptime".to_string(), "1h 1m".to_string()));
    let p = render("packages", &Reading::List(vec!["3 (dpkg)".to_string(), "1 (snap)".to_string()]))
        .unwrap();
    assert_eq!(field(&p[0]), ("Packages".to_string(), "3 (dpkg), 1 (snap)".to_string()));
    let none = render("packages", &Reading::List(vec![])).unwrap();
    assert!(none.is_empty());
    let g = render("gpu", &Reading::List(vec!["A".to_string(), "B".to_string()])).unwrap();
    assert_eq!(g.len(), 2);
    assert_eq!(field(&g[1]), ("GPU".to_string(), "B".to_string()));
    let b = render("break", &Reading::Nothing).unwrap();
    assert!(matches!(b[0].kind, LineKind::Break));
    let sep = render("separator", &Reading::Identity { user: "bob".to_string(), host: None })
        .unwrap();
    assert!(matches!(sep[0].kind, LineKind::Separator(8)));
    let de = render("de", &Reading::Maybe(None)).unwrap();
    assert!(de.is_empty());
}

#[test]
fn render_unknown_module() {
    assert!(render("bogus", &Reading::Nothing).is_none());
    assert!(probe_for("bogus").is_none());
}

#[test]
fn probes_of_modules() {
    assert_eq!(probe_for("cpu"), Some(Probe::Text));
    assert_eq!(probe_for("battery"), Some(Probe::Maybe));
    assert_eq!(probe_for("gpudriver"), Some(Probe::Each));
    assert_eq!(probe_for("network"), Some(Probe::Pair));
    assert_eq!(probe_for("title"), Some(Probe::Identity));
}

#[test]
fn static_and_live_modules() {
    assert!(is_static("os"));
    assert!(is_static("title"));
    assert!(!is_static("memory"));
    assert!(!is_static("network"));
}

#[test]
fn module_catalog_listing() {
    let all = all_modules();
    assert_eq!(all.len(), 31);
    assert_eq!(all[0].0, "title");
    let lines = module_listing();
    assert_eq!(lines.len(), 31);
    assert_eq!(lines[0], "  title       user@hostname header");
    assert_eq!(lines[14], "  resolution  active display resolution per connector");
}

#[test]
fn assemble_marks_unknown_modules() {
    let names = vec!["os".to_string(), "bogus".to_string()];
    let rendered = vec![
        Some(vec![InfoLine::field("OS".to_string(), "Linux".to_string())]),
        None,
    ];
    let out = assemble(&names, rendered);
    assert_eq!(out.len(), 2);
    assert_eq!(field(&out[0]), ("OS".to_string(), "Linux".to_string()));
    assert_eq!(field(&out[1]), ("bogus".to_string(), "(unknown module)".to_string()));
}

#[test]
fn static_lines_are_kept_across_renders() {
    let f = |a: &str, b: &str| InfoLine::field(a.to_string(), b.to_string());
    let names = vec!["os".to_string(), "cpu".to_string(), "zzz".to_string()];
    let first = vec![Some(vec![f("OS", "Arch")]), Some(vec![f("CPU", "ignored")]), None];
    let col = ModuleColumn::new(names, first);
    assert!(!col.wants(0));
    assert!(col.wants(1));
    assert!(col.wants(2));
    let one = col.render(vec![Some(vec![f("OS", "changed")]), Some(vec![f("CPU", "10%")]), None]);
    let two = col.render(vec![None, Some(vec![f("CPU", "20%")]), None]);
    let v1: Vec<_> = one.iter().map(field).collect();
    let v2: Vec<_> = two.iter().map(field).collect();
    assert_eq!(v1, vec![
        ("OS".to_string(), "Arch".to_string()),
        ("CPU".to_string(), "10%".to_string()),
        ("zzz".to_string(), "(unknown module)".to_string()),
    ]);
    assert_eq!(v2[0], v1[0]);
    assert_eq!(v2[1], ("CPU".to_string(), "20%".to_string()));
}

#[test]
fn every_catalogue_module_renders() {
    for (name, _) in all_modules() {
        let reading = match probe_for(&name).unwrap() {
            Probe::Identity => Reading::Identity { user: "u".to_string(), host: None },
            Probe::Kernel => Reading::Kernel { name: None, version: None },
            Probe::Uptime => Reading::Seconds(0),
            Probe::Text => Reading::Text("x".to_string()),
            Probe::Maybe => Reading::Maybe(None),
            Probe::Each | Probe::Joined => Reading::List(vec![]),
            Probe::Pair => Reading::Pair("a".to_string(), "b".to_string()),
            Probe::Fields => Reading::Fields(vec![]),
            Probe::Plain => Reading::Nothing,
        };
        assert!(render(&name, &reading).is_some(), "{name}");
    }
    assert!(render("nope", &Reading::Nothing).is_none());
    let b = render("break", &Reading::Nothing).unwrap();
    assert!(b.len() == 1 && matches!(b[0].kind, LineKind::Break));
    let c = render("colors", &Reading::Nothing).unwrap();
    assert!(c.len() == 1 && matches!(c[0].kind, LineKind::Colors));
}
