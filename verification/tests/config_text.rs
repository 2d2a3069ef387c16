use ttd::config::AppConfig;

#[test]
fn rendered_config_reads_back_the_same() {
    let mut config = AppConfig::new("/home/me/todo.txt.d");
    config.editor = Some("code -w".to_string());
    config.sidebar_width = 33;
    config.show_help_bar = false;
    let text = config.render();
    assert_eq!(
        text,
        "task_dir=/home/me/todo.txt.d\neditor=code -w\nsidebar_width=33\nsidebar_min_width=0\nsidebar_max_width=50\nshow_help_bar=false\nauto_update_on_edit=false\neditor_highlighting=true"
    );
    assert_eq!(AppConfig::parse(&text).unwrap(), config);
}

#[test]
fn rendered_default_config_reads_back_the_same() {
    let config = AppConfig::new("/tasks");
    assert_eq!(AppConfig::parse(&config.render()).unwrap(), config);
}
