use bambu_serve::ids::{is_safe_printer_id, is_windows_device_name, printer_id, printer_id_key};

#[test]
fn an_ordinary_profile_name_is_its_own_identifier() {
    // Nothing to learn in the common case: the URL says what the config says.
    for name in ["a1mini", "x1-carbon", "shop_2", "p1s.spare", "A1"] {
        assert_eq!(printer_id(name), name);
    }
}

#[test]
fn a_free_form_profile_name_still_yields_a_safe_identifier() {
    assert_eq!(printer_id("Shop A"), "Shop-A");
    assert_eq!(printer_id("a/b"), "a-b");
    assert_eq!(printer_id("{name}"), "name");
    assert_eq!(printer_id(".hidden"), "hidden");
    // Windows reserves these as devices, stem and all.
    for dev in ["con", "CON", "nul", "com1", "LPT9", "aux", "con.txt"] {
        let id = printer_id(dev);
        assert!(is_safe_printer_id(&id), "{dev:?} -> {id:?}");
    }
    assert_eq!(printer_id("con"), "con_");
    assert_eq!(printer_id("nul"), "nul_");
    assert_ne!(printer_id("con"), printer_id("nul"), "kept distinct");
    assert_eq!(printer_id("console"), "console", "only the exact stem");
    assert_eq!(printer_id("com0"), "com0", "COM0 is not reserved");
    for empty in ["..", "プリンタ", "", "-..", "..-", "---", "."] {
        assert_eq!(printer_id(empty), "printer", "{empty:?}");
    }
}

#[test]
fn no_profile_name_can_produce_an_unsafe_identifier() {
    let alphabet = ['-', '.', 'c', 'o', 'n', '/', '{', ' '];
    let mut checked = 0;
    for a in alphabet {
        for b in alphabet {
            for c in alphabet {
                for d in alphabet {
                    let name: String = [a, b, c, d].iter().collect();
                    let id = printer_id(&name);
                    assert!(
                        is_safe_printer_id(&id),
                        "{name:?} produced an unsafe id {id:?}"
                    );
                    // The two shapes that actually escape or hide.
                    assert!(!id.starts_with('.'), "{name:?} -> {id:?}");
                    assert!(!id.ends_with('.'), "{name:?} -> {id:?} (Windows drops it)");
                    checked += 1;
                }
            }
        }
    }
    assert_eq!(checked, alphabet.len().pow(4));
}

#[test]
fn identifiers_that_differ_only_in_case_are_treated_as_one() {
    assert_eq!(
        printer_id_key(&printer_id("A1")),
        printer_id_key(&printer_id("a1"))
    );
    assert_ne!(printer_id_key("a1mini"), printer_id_key("x1c"));
}

#[test]
fn deriving_an_identifier_twice_changes_nothing() {
    for name in ["Shop A", "con", "..", "プリンタ", "a1mini", "LPT1.gcode"] {
        let id = printer_id(name);
        assert_eq!(printer_id(&id), id);
        assert_eq!(printer_id_key(&printer_id_key(&id)), printer_id_key(&id));
    }
}

#[test]
fn a_device_name_is_known_by_its_stem() {
    assert!(is_windows_device_name("NUL"));
    assert!(is_windows_device_name("com9.txt"));
    assert!(!is_windows_device_name("com10"));
    assert!(!is_windows_device_name("printer"));
}
