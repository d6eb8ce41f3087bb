use budgy::config::{Color, Config};

#[test]
fn default_config_has_the_standard_palette() {
    let c = Config::default();
    assert!(c.recents.is_empty());
    assert_eq!(c.statement_path, None);
    let o = |r, g, b| Color { r, g, b, a: 255 };
    assert_eq!(
        c.categories,
        vec![
            ("Salary".to_string(), o(0x5B, 0x64, 0x3E)),
            ("Pocket Money".to_string(), o(0x31, 0x43, 0x50)),
            ("Mobile".to_string(), o(0xC8, 0x98, 0x39)),
            ("Clothes".to_string(), o(0xAB, 0x5E, 0x16)),
            ("Personal Care".to_string(), o(0x7B, 0x53, 0x3B)),
            ("Goodwill".to_string(), o(0x79, 0x23, 0x18)),
            ("Fuel".to_string(), o(0x44, 0x72, 0x4F)),
            ("Food".to_string(), o(0x4B, 0x82, 0x99)),
            ("Bank".to_string(), o(0x99, 0xBF, 0xDF)),
        ]
    );
}
