use vstd::prelude::*;

verus! {

/// The settings of one site: how many visitors may be in at once, the
/// texts of the waiting screen, and how requests are checked for origin.
#[derive(Clone, Debug)]
pub struct SiteConfig {
    pub max_active: usize,
    pub title: String,
    pub subtitle: String,
    pub position_label: String,
    pub meta_format: String,
    pub allowed_origins: Vec<String>,
    pub verify_origin: bool,
}

/// A change to a site's settings: each field that is given replaces the
/// current one.
#[derive(Clone, Debug)]
pub struct ConfigUpdate {
    pub max_active: Option<usize>,
    pub title: Option<String>,
    pub subtitle: Option<String>,
    pub position_label: Option<String>,
    pub meta_format: Option<String>,
    pub allowed_origins: Option<Vec<String>>,
    pub verify_origin: Option<bool>,
}

/// Why a site could not be created or changed.
#[derive(Clone, Copy, Debug, PartialEq, Eq, Structural)]
pub enum SiteConfigError {
    /// The (normalized) domain is empty.
    DomainRequired,
    /// A site with this domain already exists.
    AlreadyExists,
    /// `max_active` was given as 0.
    ZeroMaxActive,
}

/// The value that a stored site configuration without `verify_origin` gets.
pub fn default_true() -> (r: bool)
    ensures
        r,
{
    true
}

/// Whether `c` holds the settings of a freshly registered site.
pub open spec fn is_default_config(c: SiteConfig) -> bool {
    &&& c.max_active == 3
    &&& c.title@ == "접속 대기중"@
    &&& c.subtitle@ == "현재 접속자가 많아 잠시 대기중입니다"@
    &&& c.position_label@ == "번째 순서"@
    &&& c.meta_format@ == "대기 {waiting}명 · 입장 {active}명"@
    &&& c.allowed_origins@.len() == 0
    &&& c.verify_origin
}

/// `old` with every field that `u` gives replaced by it.
pub open spec fn updated_config(old: SiteConfig, u: ConfigUpdate) -> SiteConfig {
    SiteConfig {
        max_active: match u.max_active {
            Some(v) => v,
            None => old.max_active,
        },
        title: match u.title {
            Some(v) => v,
            None => old.title,
        },
        subtitle: match u.subtitle {
            Some(v) => v,
            None => old.subtitle,
        },
        position_label: match u.position_label {
            Some(v) => v,
            None => old.position_label,
        },
        meta_format: match u.meta_format {
            Some(v) => v,
            None => old.meta_format,
        },
        allowed_origins: match u.allowed_origins {
            Some(v) => v,
            None => old.allowed_origins,
        },
        verify_origin: match u.verify_origin {
            Some(v) => v,
            None => old.verify_origin,
        },
    }
}

impl Default for SiteConfig {
    fn default() -> (r: SiteConfig)
        ensures
            is_default_config(r),
    {
        SiteConfig {
            max_active: 3,
            title: String::from_str("접속 대기중"),
            subtitle: String::from_str("현재 접속자가 많아 잠시 대기중입니다"),
            position_label: String::from_str("번째 순서"),
            meta_format: String::from_str("대기 {waiting}명 · 입장 {active}명"),
            allowed_origins: Vec::new(),
            verify_origin: true,
        }
    }
}

impl SiteConfig {
    /// Applies `u` to these settings. A `max_active` of 0 is refused, and then
    /// nothing changes.
    pub fn apply_update(&mut self, u: ConfigUpdate) -> (r: Result<(), SiteConfigError>)
        ensures
            r is Err <==> u.max_active == Some(0usize),
            r is Err ==> r == Err::<(), SiteConfigError>(SiteConfigError::ZeroMaxActive)
                && *final(self) == *old(self),
            r is Ok ==> *final(self) == updated_config(*old(self), u),
            r is Ok ==> (u.max_active matches Some(v) ==> final(self).max_active == v),
            r is Ok && u.max_active is None ==> final(self).max_active == old(self).max_active,
            r is Ok ==> (u.title matches Some(v) ==> final(self).title == v),
            r is Ok && u.title is None ==> final(self).title == old(self).title,
            r is Ok ==> (u.subtitle matches Some(v) ==> final(self).subtitle == v),
            r is Ok && u.subtitle is None ==> final(self).subtitle == old(self).subtitle,
            r is Ok ==> (u.position_label matches Some(v) ==> final(self).position_label == v),
            r is Ok && u.position_label is None ==> final(self).position_label == old(self).position_label,
            r is Ok ==> (u.meta_format matches Some(v) ==> final(self).meta_format == v),
            r is Ok && u.meta_format is None ==> final(self).meta_format == old(self).meta_format,
            r is Ok ==> (u.allowed_origins matches Some(v) ==> final(self).allowed_origins == v),
            r is Ok && u.allowed_origins is None ==> final(self).allowed_origins == old(self).allowed_origins,
            r is Ok ==> (u.verify_origin matches Some(v) ==> final(self).verify_origin == v),
            r is Ok && u.verify_origin is None ==> final(self).verify_origin == old(self).verify_origin,
    {
        if let Some(v) = u.max_active {
            if v == 0 {
                return Err(SiteConfigError::ZeroMaxActive);
            }
            self.max_active = v;
        }
        if let Some(v) = u.title {
            self.title = v;
        }
        if let Some(v) = u.subtitle {
            self.subtitle = v;
        }
        if let Some(v) = u.position_label {
            self.position_label = v;
        }
        if let Some(v) = u.meta_format {
            self.meta_format = v;
        }
        if let Some(v) = u.allowed_origins {
            self.allowed_origins = v;
        }
        if let Some(v) = u.verify_origin {
            self.verify_origin = v;
        }
        Ok(())
    }
}

/// The settings of a new site under the (already normalized) `domain`: the
/// defaults with `fields` applied. `taken` says whether a site with this
/// domain exists. The checks come in this order: an empty domain, a taken
/// domain, a `max_active` of 0.
pub fn new_site_config(domain: &str, taken: bool, fields: ConfigUpdate) -> (r: Result<
    SiteConfig,
    SiteConfigError,
>)
    ensures
        domain@.len() == 0 ==> r == Err::<SiteConfig, SiteConfigError>(
            SiteConfigError::DomainRequired,
        ),
        domain@.len() > 0 && taken ==> r == Err::<SiteConfig, SiteConfigError>(
            SiteConfigError::AlreadyExists,
        ),
        domain@.len() > 0 && !taken && fields.max_active == Some(0usize) ==> r == Err::<
            SiteConfig,
            SiteConfigError,
        >(SiteConfigError::ZeroMaxActive),
        domain@.len() > 0 && !taken && fields.max_active != Some(0usize) ==> (r matches Ok(c)
            && exists|d: SiteConfig| is_default_config(d) && c == updated_config(d, fields)),
        r matches Ok(c) ==> (fields.max_active matches Some(v) ==> c.max_active == v) && (
        fields.max_active is None ==> c.max_active == 3),
        r matches Ok(c) ==> (fields.title matches Some(v) ==> c.title == v) && (fields.title is None
            ==> c.title@ == "접속 대기중"@),
        r matches Ok(c) ==> (fields.subtitle matches Some(v) ==> c.subtitle == v) && (
        fields.subtitle is None ==> c.subtitle@ == "현재 접속자가 많아 잠시 대기중입니다"@),
        r matches Ok(c) ==> (fields.position_label matches Some(v) ==> c.position_label == v) && (
        fields.position_label is None ==> c.position_label@ == "번째 순서"@),
        r matches Ok(c) ==> (fields.meta_format matches Some(v) ==> c.meta_format == v) && (
        fields.meta_format is None ==> c.meta_format@ == "대기 {waiting}명 · 입장 {active}명"@),
        r matches Ok(c) ==> (fields.allowed_origins matches Some(v) ==> c.allowed_origins == v) && (
        fields.allowed_origins is None ==> c.allowed_origins@.len() == 0),
        r matches Ok(c) ==> (fields.verify_origin matches Some(v) ==> c.verify_origin == v) && (
        fields.verify_origin is None ==> c.verify_origin),
{
    if domain.unicode_len() == 0 {
        return Err(SiteConfigError::DomainRequired);
    }
    if taken {
        return Err(SiteConfigError::AlreadyExists);
    }
    let mut cfg = SiteConfig::default();
    let ghost d = cfg;
    match cfg.apply_update(fields) {
        Ok(()) => {
            assert(is_default_config(d) && cfg == updated_config(d, fields));
            Ok(cfg)
        },
        Err(e) => Err(e),
    }
}

/// An update sets every field it gives to the given value and leaves every
/// other field as it was; applying the same update twice is the same as
/// applying it once.
pub proof fn law_update_sets_given_fields(old: SiteConfig, u: ConfigUpdate)
    ensures
        u.max_active matches Some(v) ==> updated_config(old, u).max_active == v,
        u.max_active is None ==> updated_config(old, u).max_active == old.max_active,
        u.title matches Some(v) ==> updated_config(old, u).title == v,
        u.title is None ==> updated_config(old, u).title == old.title,
        u.subtitle matches Some(v) ==> updated_config(old, u).subtitle == v,
        u.subtitle is None ==> updated_config(old, u).subtitle == old.subtitle,
        u.position_label matches Some(v) ==> updated_config(old, u).position_label == v,
        u.position_label is None ==> updated_config(old, u).position_label == old.position_label,
        u.meta_format matches Some(v) ==> updated_config(old, u).meta_format == v,
        u.meta_format is None ==> updated_config(old, u).meta_format == old.meta_format,
        u.allowed_origins matches Some(v) ==> updated_config(old, u).allowed_origins == v,
        u.allowed_origins is None ==> updated_config(old, u).allowed_origins == old.allowed_origins,
        u.verify_origin matches Some(v) ==> updated_config(old, u).verify_origin == v,
        u.verify_origin is None ==> updated_config(old, u).verify_origin == old.verify_origin,
        updated_config(updated_config(old, u), u) == updated_config(old, u),
{
}

} // verus!
