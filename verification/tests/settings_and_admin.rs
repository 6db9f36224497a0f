use pscheckwait::admin::{admin_channel_allowed, check_admin, page_limit, plan_setup, AdminAuthError, SetupError};
use pscheckwait::config::{default_true, new_site_config, ConfigUpdate, SiteConfig, SiteConfigError};
use pscheckwait::settings::{data_dir_choice, port_setting, setting_override, DataDirChoice};
use pscheckwait::order::text_le_exec;
use pscheckwait::sites::{sort_by_domain, startup_sites, SiteSummary};

fn no_update() -> ConfigUpdate {
    ConfigUpdate {
        max_active: None,
        title: None,
        subtitle: None,
        position_label: None,
        meta_format: None,
        allowed_origins: None,
        verify_origin: None,
    }
}

#[test]
fn default_site_settings() {
    let c = SiteConfig::default();
    assert_eq!(c.max_active, 3);
    assert_eq!(c.title, "접속 대기중");
    assert_eq!(c.subtitle, "현재 접속자가 많아 잠시 대기중입니다");
    assert_eq!(c.position_label, "번째 순서");
    assert_eq!(c.meta_format, "대기 {waiting}명 · 입장 {active}명");
    assert!(c.allowed_origins.is_empty());
    assert!(c.verify_origin);
    assert!(default_true());
}

#[test]
fn zero_limit_is_refused_and_nothing_changes() {
    let mut c = SiteConfig::default();
    let mut u = no_update();
    u.max_active = Some(0);
    u.title = Some("new".to_string());
    assert_eq!(c.apply_update(u), Err(SiteConfigError::ZeroMaxActive));
    assert_eq!(c.max_active, 3);
    assert_eq!(c.title, "접속 대기중");
}

#[test]
fn update_changes_only_given_fields() {
    let mut c = SiteConfig::default();
    let mut u = no_update();
    u.max_active = Some(100);
    u.verify_origin = Some(false);
    u.allowed_origins = Some(vec!["a.com".to_string()]);
    assert_eq!(c.apply_update(u), Ok(()));
    assert_eq!(c.max_active, 100);
    assert!(!c.verify_origin);
    assert_eq!(c.allowed_origins, vec!["a.com".to_string()]);
    assert_eq!(c.title, "접속 대기중");
}

#[test]
fn new_site_checks_in_order() {
    let mut zero = no_update();
    zero.max_active = Some(0);
    assert_eq!(new_site_config("", true, no_update()).unwrap_err(), SiteConfigError::DomainRequired);
    let mut zero2 = no_update();
    zero2.max_active = Some(0);
    assert_eq!(new_site_config("a.com", true, zero).unwrap_err(), SiteConfigError::AlreadyExists);
    assert_eq!(new_site_config("a.com", false, zero2).unwrap_err(), SiteConfigError::ZeroMaxActive);
    let mut u = no_update();
    u.title = Some("Wait".to_string());
    let c = new_site_config("a.com", false, u).unwrap();
    assert_eq!(c.title, "Wait");
    assert_eq!(c.max_active, 3);
}

#[test]
fn admin_requests_need_the_bearer_token() {
    assert_eq!(check_admin("", Some("Bearer x")), Err(AdminAuthError::NotConfigured));
    assert_eq!(check_admin("secret", Some("Bearer secret")), Ok(()));
    assert_eq!(check_admin("secret", Some("Bearer wrong")), Err(AdminAuthError::Unauthorized));
    assert_eq!(check_admin("secret", Some("secret")), Err(AdminAuthError::Unauthorized));
    assert_eq!(check_admin("secret", Some("bearer secret")), Err(AdminAuthError::Unauthorized));
    assert_eq!(check_admin("secret", None), Err(AdminAuthError::Unauthorized));
}

#[test]
fn admin_channel_needs_a_set_token() {
    assert!(!admin_channel_allowed("", ""));
    assert!(admin_channel_allowed("tok", "tok"));
    assert!(!admin_channel_allowed("tok", "tok2"));
}

#[test]
fn setup_runs_once_with_a_long_enough_token() {
    assert_eq!(plan_setup("set", "abcdefgh", "", true).unwrap_err(), SetupError::AlreadyDone);
    assert_eq!(plan_setup("", "  short  ", "", true).unwrap_err(), SetupError::TokenTooShort);
    let p = plan_setup("", "  abcdefgh  ", "  redis://127.0.0.1:6379 ", true).unwrap();
    assert_eq!(p.admin_token, "abcdefgh");
    assert_eq!(p.redis_url, "redis://127.0.0.1:6379");
    assert!(p.restart_required);
    let p = plan_setup("", "abcdefgh", "redis://x", false).unwrap();
    assert!(!p.restart_required);
    let p = plan_setup("", "abcdefgh", "   ", true).unwrap();
    assert!(!p.restart_required);
    // length counts bytes: three Hangul syllables are nine bytes.
    assert!(plan_setup("", "가나다", "", true).is_ok());
}

#[test]
fn page_limit_is_clamped() {
    assert_eq!(page_limit(None), 100);
    assert_eq!(page_limit(Some(0)), 1);
    assert_eq!(page_limit(Some(50)), 50);
    assert_eq!(page_limit(Some(5000)), 500);
}

#[test]
fn data_dir_setting() {
    assert!(matches!(data_dir_choice(Some("NoNe")), DataDirChoice::Disabled));
    assert!(matches!(data_dir_choice(Some("-")), DataDirChoice::Disabled));
    assert!(matches!(data_dir_choice(Some("/var/lib/x")), DataDirChoice::At(ref d) if d == "/var/lib/x"));
    assert!(matches!(data_dir_choice(Some("nonee")), DataDirChoice::At(_)));
    assert!(matches!(data_dir_choice(None), DataDirChoice::Default));
}

#[test]
fn environment_overrides() {
    assert_eq!(setting_override("a".to_string(), Some("b".to_string())), "b");
    assert_eq!(setting_override("a".to_string(), Some(String::new())), "a");
    assert_eq!(setting_override("a".to_string(), None), "a");
}

#[test]
fn port_setting_defaults_to_3000() {
    assert_eq!(port_setting(Some("4000")), 4000);
    assert_eq!(port_setting(Some("70000")), 3000);
    assert_eq!(port_setting(Some("abc")), 3000);
    assert_eq!(port_setting(None), 3000);
}

#[test]
fn summaries_sort_by_domain() {
    let mk = |d: &str, a: usize| SiteSummary { domain: d.to_string(), active: a, waiting: 0, max_active: 3 };
    let v = vec![mk("b.com", 1), mk("a.com", 2), mk("localhost", 3), mk("B.com", 4)];
    let r = sort_by_domain(v);
    let names: Vec<&str> = r.iter().map(|s| s.domain.as_str()).collect();
    assert_eq!(names, vec!["B.com", "a.com", "b.com", "localhost"]);
    assert_eq!(r[1].active, 2);
    assert!(text_le_exec("ab", "abc"));
    assert!(!text_le_exec("abc", "ab"));
    assert!(text_le_exec("", ""));
}

#[test]
fn startup_seeds_localhost_when_nothing_was_stored() {
    let (v, seeded) = startup_sites(None);
    assert!(seeded);
    assert_eq!(v.len(), 1);
    assert_eq!(v[0].0, "localhost");
    assert_eq!(v[0].1.max_active, 3);
    let (v, seeded) = startup_sites(Some(Vec::new()));
    assert!(seeded);
    assert_eq!(v[0].0, "localhost");
    let stored = vec![("a.com".to_string(), SiteConfig::default())];
    let (v, seeded) = startup_sites(Some(stored));
    assert!(!seeded);
    assert_eq!(v[0].0, "a.com");
}

#[test]
fn port_setting_follows_number_parsing() {
    assert_eq!(port_setting(Some("+80")), 80);
    assert_eq!(port_setting(Some("007")), 7);
    assert_eq!(port_setting(Some("65535")), 65535);
    assert_eq!(port_setting(Some("65536")), 3000);
    assert_eq!(port_setting(Some("-1")), 3000);
    assert_eq!(port_setting(Some("+")), 3000);
    assert_eq!(port_setting(Some("")), 3000);
    assert_eq!(port_setting(Some(" 80")), 3000);
    assert_eq!(port_setting(Some("8o")), 3000);
}
