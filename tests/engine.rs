use rpltree::{Address, Mote, Motes};

fn addr(last: u16) -> Address {
    Address::new(0xfe80, 0, 0, 0, 0, 0, 0, last)
}

fn strip_styles(s: &str) -> String {
    let mut out = String::new();
    let mut in_escape = false;
    for c in s.chars() {
        if c == '\x1b' {
            in_escape = true;
        } else if in_escape {
            if c == 'm' {
                in_escape = false;
            }
        } else {
            out.push(c);
        }
    }
    out
}

#[test]
fn address_text_canonical_forms() {
    let samples: [([u16; 8], &str); 12] = [
        ([0xfe80, 0, 0, 0, 0, 0, 0, 1], "fe80::1"),
        ([0; 8], "::"),
        ([0, 0, 0, 0, 0, 0, 0, 1], "::1"),
        ([1, 0, 0, 0, 0, 0, 0, 0], "1::"),
        ([1, 0, 0, 1, 0, 0, 0, 0], "1:0:0:1::"),
        ([1, 0, 0, 2, 0, 0, 3, 4], "1::2:0:0:3:4"),
        ([1, 0, 2, 0, 3, 0, 4, 0], "1:0:2:0:3:0:4:0"),
        ([0x2001, 0xdb8, 0x85a3, 0, 0, 0x8a2e, 0x370, 0x7334], "2001:db8:85a3::8a2e:370:7334"),
        ([0xfd00, 0, 0, 0, 0x212, 0x4b00, 0x60d, 0xb21a], "fd00::212:4b00:60d:b21a"),
        ([0, 0, 0, 0, 0, 0xffff, 0xc0a8, 0x0101], "::ffff:192.168.1.1"),
        ([0xffff; 8], "ffff:ffff:ffff:ffff:ffff:ffff:ffff:ffff"),
        ([0, 1, 0, 0, 1, 0, 0, 1], "0:1::1:0:0:1"),
    ];
    for (segments, text) in samples {
        assert_eq!(Address::from_segments(segments).to_text(), text);
    }
}

#[test]
fn address_text_examples() {
    assert_eq!(addr(1).to_text(), "fe80::1");
    assert_eq!(Address::new(0, 0, 0, 0, 0, 0, 0, 0).to_text(), "::");
    assert_eq!(Address::new(1, 0, 0, 2, 0, 0, 3, 4).to_text(), "1::2:0:0:3:4");
    assert_eq!(Address::new(0, 0, 0, 0, 0, 0xffff, 0x0a00, 0x0001).to_text(), "::ffff:10.0.0.1");
    assert_eq!(Address::new(0xabcd, 0x12, 1, 0, 0x100, 0xf, 0x10, 0).to_text(), "abcd:12:1:0:100:f:10:0");
}

#[test]
fn address_segments_round_trip() {
    let a = Address::new(1, 2, 3, 4, 5, 6, 7, 8);
    assert_eq!(a.segments(), [1, 2, 3, 4, 5, 6, 7, 8]);
    assert_eq!(Address::from_segments(a.segments()), a);
    assert_ne!(a, Address::new(1, 2, 3, 4, 5, 6, 7, 9));
}

#[test]
fn mote_new_has_no_parent() {
    let m = Mote::new(addr(1));
    assert_eq!(m.address(), addr(1));
    assert_eq!(m.parent(), None);
    assert!(!m.is_highlighted());
}

#[test]
fn mote_set_parent_signals_change_only() {
    let mut m = Mote::new(addr(2));
    assert!(m.set_parent(addr(1)));
    assert_eq!(m.parent(), Some(addr(1)));
    assert!(m.is_highlighted());
    let mut plain = Mote::new(addr(3));
    plain.set_parent(addr(1));
    let mut registry = Motes::new();
    registry.add(plain);
    registry.showtree();
    let m2 = registry.get_mut(addr(3));
    assert!(!m2.set_parent(addr(1)));
    assert!(!m2.is_highlighted());
    assert!(m2.set_parent(addr(4)));
    assert_eq!(m2.parent(), Some(addr(4)));
}

#[test]
fn mote_set_updated_keeps_parent() {
    let mut m = Mote::new(addr(2));
    m.set_parent(addr(1));
    m.set_updated();
    assert!(m.is_highlighted());
    assert_eq!(m.parent(), Some(addr(1)));
}

#[test]
fn contains_is_exact_match() {
    let mut registry = Motes::default();
    assert!(!registry.contains(addr(1)));
    registry.add(Mote::new(addr(1)));
    assert!(registry.contains(addr(1)));
    assert!(!registry.contains(Address::new(0xfd00, 0, 0, 0, 0, 0, 0, 1)));
    assert_eq!(registry.len(), 1);
}

#[test]
fn get_mut_changes_the_record() {
    let mut registry = Motes::new();
    registry.add(Mote::new(addr(1)));
    registry.add(Mote::new(addr(2)));
    assert!(registry.get_mut(addr(2)).set_parent(addr(1)));
    assert_eq!(registry.motes[1].parent(), Some(addr(1)));
    assert_eq!(registry.motes[0].parent(), None);
}

#[test]
fn observing_twice_records_once() {
    let mut registry = Motes::new();
    assert!(registry.device_observed(addr(1)).is_some());
    assert!(registry.device_observed(addr(1)).is_none());
    assert_eq!(registry.len(), 1);
}

#[test]
fn same_parent_twice_renders_once() {
    let mut registry = Motes::new();
    registry.device_observed(addr(1));
    registry.device_observed(addr(2));
    assert!(registry.parent_advertised(addr(2), addr(1)).is_some());
    assert!(registry.parent_advertised(addr(2), addr(1)).is_none());
    assert!(registry.parent_advertised(addr(2), addr(3)).is_some());
}

#[test]
fn unknown_device_advert_is_ignored() {
    let mut registry = Motes::new();
    registry.device_observed(addr(1));
    assert!(registry.parent_advertised(addr(9), addr(1)).is_none());
    assert_eq!(registry.len(), 1);
    assert_eq!(registry.showtree(), "fe80::1\n\n");
}

#[test]
fn render_clears_highlights() {
    let mut registry = Motes::new();
    let mut a = Mote::new(addr(1));
    a.set_updated();
    let mut b = Mote::new(addr(2));
    b.set_parent(addr(1));
    registry.add(a);
    registry.add(b);
    assert!(registry.motes[0].is_highlighted());
    assert!(registry.motes[1].is_highlighted());
    registry.showtree();
    assert!(!registry.motes[0].is_highlighted());
    assert!(!registry.motes[1].is_highlighted());
}

#[test]
fn empty_registry_renders_nothing() {
    let mut registry = Motes::new();
    assert_eq!(registry.showtree(), "");
}

#[test]
fn forest_shape() {
    let mut registry = Motes::new();
    for k in [0xa, 0xb, 0xc, 0xd] {
        registry.device_observed(addr(k));
    }
    registry.parent_advertised(addr(0xb), addr(0xa));
    registry.parent_advertised(addr(0xc), addr(0xa));
    registry.parent_advertised(addr(0xd), addr(0xb));
    let text = registry.showtree();
    assert_eq!(text, "fe80::a\n├── fe80::b\n│   └── fe80::d\n└── fe80::c\n\n");
}

#[test]
fn two_roots_in_insertion_order() {
    let mut registry = Motes::new();
    for k in [5, 3, 4] {
        registry.device_observed(addr(k));
    }
    registry.parent_advertised(addr(4), addr(3));
    assert_eq!(registry.showtree(), "fe80::5\n\nfe80::3\n└── fe80::4\n\n");
}

#[test]
fn dangling_parent_is_omitted() {
    let mut registry = Motes::new();
    let mut a = Mote::new(addr(0xa));
    a.set_parent(addr(0xff));
    registry.add(a);
    assert_eq!(registry.showtree(), "");
    registry.device_observed(addr(1));
    assert_eq!(registry.showtree(), "fe80::1\n\n");
}

#[test]
fn cycle_is_not_rendered() {
    let mut registry = Motes::new();
    registry.device_observed(addr(1));
    registry.device_observed(addr(2));
    registry.device_observed(addr(3));
    registry.parent_advertised(addr(2), addr(3));
    registry.parent_advertised(addr(3), addr(2));
    assert_eq!(registry.showtree(), "fe80::1\n\n");
}

#[test]
fn deep_chain_nests() {
    let mut registry = Motes::new();
    for k in 1..=4 {
        registry.device_observed(addr(k));
    }
    for k in 2..=4 {
        registry.parent_advertised(addr(k), addr(k - 1));
    }
    assert_eq!(
        registry.showtree(),
        "fe80::1\n└── fe80::2\n    └── fe80::3\n        └── fe80::4\n\n"
    );
}

#[test]
fn render_with_given_labels() {
    let mut registry = Motes::new();
    registry.add(Mote::new(addr(1)));
    let mut b = Mote::new(addr(2));
    b.set_parent(addr(1));
    registry.add(b);
    let labels = vec!["root".to_string(), "leaf".to_string()];
    assert_eq!(registry.render(&labels), "root\n└── leaf\n\n");
    assert!(!registry.motes[1].is_highlighted());
}

#[test]
fn rerender_drops_highlight_markers() {
    colored::control::set_override(true);
    let mut registry = Motes::new();
    registry.device_observed(addr(1));
    registry.device_observed(addr(2));
    registry.add(Mote::new(addr(3)));
    registry.get_mut(addr(3)).set_parent(addr(1));
    let first = registry.showtree();
    let second = registry.showtree();
    assert!(first.contains('\x1b'));
    assert!(!second.contains('\x1b'));
    assert_eq!(strip_styles(&first), second);
    assert_eq!(second, "fe80::1\n└── fe80::3\n\nfe80::2\n\n");
}

#[test]
fn end_to_end_scenario() {
    colored::control::set_override(true);
    let mut registry = Motes::new();
    let first = registry.device_observed(addr(1)).unwrap();
    assert!(first.starts_with("\x1b["));
    assert_eq!(strip_styles(&first), "fe80::1\n\n");
    let second = registry.device_observed(addr(2)).unwrap();
    assert!(second.starts_with("fe80::1\n\n\x1b["));
    let third = registry.parent_advertised(addr(2), addr(1)).unwrap();
    assert!(third.starts_with("fe80::1\n└── \x1b["));
    assert!(third.contains("fe80::2\x1b[0m"));
    assert_eq!(strip_styles(&third), "fe80::1\n└── fe80::2\n\n");
    assert_eq!(registry.showtree(), "fe80::1\n└── fe80::2\n\n");
}
