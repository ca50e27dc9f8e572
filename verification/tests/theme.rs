use alter_ego_tools::theme::Theme;

#[test]
fn theme_names_round_trip() {
    for theme in [Theme::System, Theme::Light, Theme::Dark] {
        assert_eq!(Theme::from(theme.to_string().as_str()), theme);
    }
    assert_eq!(Theme::from("Purple"), Theme::System);
    assert_eq!(Theme::Dark.to_string(), "Dark");
}

#[test]
fn theme_positions_round_trip() {
    for index in 0u32..3 {
        assert_eq!(u32::from(Theme::from(index)), index);
    }
    assert_eq!(Theme::from(7u32), Theme::System);
    assert_eq!(u32::from(Theme::Light), 1);
    assert_eq!(Theme::default(), Theme::System);
}
