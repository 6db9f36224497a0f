use vstd::prelude::*;
use crate::config::SiteConfig;
use crate::text::{
    before_first, chars_of, find, find_in, lacks, lemma_before_first, lemma_find_from_hit,
    lemma_rfind_below, lemma_skip_leading, lemma_skip_trailing, skip_leading, skip_trailing,
    is_white_space, skip_white_leading, skip_white_trailing, lowercase_str, lowercased, rfind, rfind_in,
    skip_leading_in, skip_trailing_in, trim_end_char, trim_start_char, trim_str, trimmed,
};

verus! {

/// The header values that the origin check reads, each as text where the
/// request carried it as visible ASCII.
#[derive(Clone, Debug)]
pub struct RequestHeaders {
    pub origin: Option<String>,
    pub referer: Option<String>,
    pub host: Option<String>,
}

/// Why a request was refused by the origin check.
#[derive(Clone, Copy, Debug, PartialEq, Eq, Structural)]
pub enum OriginError {
    /// Neither `Origin` nor `Referer` named a host.
    MissingOrigin,
    /// The host named is not one the site allows.
    NotAllowed,
}

/// The separator between a URL's scheme and the rest.
pub open spec fn scheme_separator() -> Seq<char> {
    seq![':', '/', '/']
}

/// The host part of an (already trimmed) origin or URL: what follows
/// `://` (or all of it), up to the first `/`, `?` or `#`, without the text
/// from the last `:` on, and without enclosing brackets.
pub open spec fn origin_host_part(t: Seq<char>) -> Seq<char> {
    let s1 = match find(t, scheme_separator()) {
        Some(i) => t.subrange(i + 3, t.len() as int),
        None => t,
    };
    let s2 = before_first(before_first(before_first(s1, '/'), '?'), '#');
    let h = match rfind(s2, ':') {
        Some(i) => s2.take(i),
        None => s2,
    };
    trim_end_char(trim_start_char(h, '['), ']')
}

/// The lowercase host that an `Origin` or `Referer` value names, if any.
pub open spec fn spec_host_from_origin(raw: Seq<char>) -> Option<Seq<char>> {
    let h = origin_host_part(trimmed(raw));
    if h.len() == 0 {
        None
    } else {
        Some(lowercased(h))
    }
}

/// The host that the request's `Origin`, or failing that its `Referer`, names.
pub open spec fn spec_extract_origin_host(h: RequestHeaders) -> Option<Seq<char>> {
    let from_origin = match h.origin {
        Some(o) => spec_host_from_origin(o@),
        None => None,
    };
    if from_origin is Some {
        from_origin
    } else {
        match h.referer {
            Some(r) => spec_host_from_origin(r@),
            None => None,
        }
    }
}

/// The host that one entry of a site's allowed origins stands for.
pub open spec fn allowed_host(s: Seq<char>) -> Seq<char> {
    match spec_host_from_origin(s) {
        Some(h) => h,
        None => lowercased(s),
    }
}

/// The hosts a site accepts requests from: its own domain when it lists no
/// allowed origins, and otherwise exactly the hosts of the listed ones.
pub open spec fn allowed_hosts(domain: Seq<char>, cfg: SiteConfig) -> Seq<Seq<char>> {
    if cfg.allowed_origins@.len() == 0 {
        seq![lowercased(domain)]
    } else {
        cfg.allowed_origins@.map_values(|s: String| allowed_host(s@))
    }
}

/// Whether the `Host` header names the same host as the origin (a request
/// from the server's own pages).
pub open spec fn same_origin(host: Option<String>, origin_host: Seq<char>) -> bool {
    match host {
        Some(hh) => {
            let h = lowercased(before_first(hh@, ':'));
            h.len() > 0 && h == origin_host
        },
        None => false,
    }
}

/// The outcome of the origin check for a request to the site `domain`.
pub open spec fn spec_check_origin(h: RequestHeaders, domain: Seq<char>, cfg: SiteConfig) -> Result<
    (),
    OriginError,
> {
    if !cfg.verify_origin {
        Ok(())
    } else {
        match spec_extract_origin_host(h) {
            None => Err(OriginError::MissingOrigin),
            Some(oh) => if same_origin(h.host, oh) || allowed_hosts(domain, cfg).contains(oh) {
                Ok(())
            } else {
                Err(OriginError::NotAllowed)
            },
        }
    }
}

/// The host part of an already trimmed origin; see `origin_host_part`.
pub fn host_part(t: &str) -> (r: &str)
    ensures
        r@ == origin_host_part(t@),
{
    let v = chars_of(t);
    let n = v.len();
    let ghost tv = t@;
    assert(v@.subrange(0, n as int) =~= tv);
    let mut sep: Vec<char> = Vec::new();
    sep.push(':');
    sep.push('/');
    sep.push('/');
    assert(sep@ =~= scheme_separator());
    let lo: usize = match find_in(&v, 0, n, &sep) {
        Some(i) => i + 3,
        None => 0,
    };
    let ghost s1 = match find(tv, scheme_separator()) {
        Some(i) => tv.subrange(i + 3, tv.len() as int),
        None => tv,
    };
    assert(lo <= n);
    assert(v@.subrange(lo as int, n as int) =~= s1);
    let mut hi: usize = n;
    let ghost mut cur: Seq<char> = s1;
    let cuts: [char; 3] = ['/', '?', '#'];
    let mut k: usize = 0;
    while k < 3
        invariant
            lo <= hi <= n,
            n == v.len(),
            k <= 3,
            cuts@ == seq!['/', '?', '#'],
            v@.subrange(lo as int, hi as int) == cur,
            k == 0 ==> cur == s1,
            k == 1 ==> cur == before_first(s1, '/'),
            k == 2 ==> cur == before_first(before_first(s1, '/'), '?'),
            k == 3 ==> cur == before_first(before_first(before_first(s1, '/'), '?'), '#'),
        decreases 3 - k,
    {
        let c = cuts[k];
        let mut one: Vec<char> = Vec::new();
        one.push(c);
        assert(one@ =~= seq![c]);
        let found = find_in(&v, lo, hi, &one);
        proof {
            let nxt = before_first(cur, c);
            if let Some(i) = found {
                assert(v@.subrange(lo as int, i as int) =~= cur.take(i - lo));
            }
        }
        if let Some(i) = found {
            hi = i;
        }
        proof {
            cur = before_first(cur, c);
        }
        k = k + 1;
    }
    let ghost s2 = cur;
    match rfind_in(&v, lo, hi, ':') {
        Some(i) => {
            assert(v@.subrange(lo as int, i as int) =~= s2.take(i - lo));
            hi = i;
        },
        None => {},
    }
    let ghost h = match rfind(s2, ':') {
        Some(i) => s2.take(i),
        None => s2,
    };
    assert(v@.subrange(lo as int, hi as int) == h);
    let lo2 = skip_leading_in(&v, lo, hi, '[');
    assert(v@.subrange(lo2 as int, hi as int) =~= trim_start_char(h, '['));
    let hi2 = skip_trailing_in(&v, lo2, hi, ']');
    assert(v@.subrange(lo2 as int, hi2 as int) =~= trim_end_char(trim_start_char(h, '['), ']'));
    t.substring_char(lo2, hi2)
}

/// The lowercase host that an `Origin` or `Referer` value names: the value
/// trimmed, its host part taken, and lowercased; `None` when that part is
/// empty.
pub fn host_from_origin(raw: &str) -> (r: Option<String>)
    ensures
        match r {
            Some(h) => spec_host_from_origin(raw@) == Some(h@),
            None => spec_host_from_origin(raw@) is None,
        },
{
    let t = trim_str(raw);
    let h = host_part(t);
    if h.unicode_len() == 0 {
        None
    } else {
        Some(lowercase_str(h))
    }
}

/// The host that the request's `Origin`, or failing that its `Referer`, names.
pub fn extract_origin_host(headers: &RequestHeaders) -> (r: Option<String>)
    ensures
        match r {
            Some(h) => spec_extract_origin_host(*headers) == Some(h@),
            None => spec_extract_origin_host(*headers) is None,
        },
{
    if let Some(o) = &headers.origin {
        if let Some(h) = host_from_origin(o.as_str()) {
            return Some(h);
        }
    }
    if let Some(r) = &headers.referer {
        if let Some(h) = host_from_origin(r.as_str()) {
            return Some(h);
        }
    }
    None
}

/// A site's domain as stored: trimmed and lowercased.
pub fn normalize_domain(d: &str) -> (r: String)
    ensures
        r@ == lowercased(trimmed(d@)),
{
    lowercase_str(trim_str(d))
}

/// Whether the request may use the site `domain` with settings `cfg`: always
/// when the site does not check origins; otherwise the request must name a
/// host in `Origin` or `Referer`, and that host must be the server's own
/// (`Host`) or one the site allows.
pub fn check_origin(headers: &RequestHeaders, domain: &str, cfg: &SiteConfig) -> (r: Result<
    (),
    OriginError,
>)
    ensures
        r == spec_check_origin(*headers, domain@, *cfg),
        !cfg.verify_origin ==> r is Ok,
        cfg.verify_origin && spec_extract_origin_host(*headers) is None ==> r == Err::<(), OriginError>(
            OriginError::MissingOrigin,
        ),
        cfg.verify_origin ==> (spec_extract_origin_host(*headers) matches Some(oh) ==> (
        headers.host matches Some(hh) ==> (lowercased(before_first(hh@, ':')).len() > 0
            && lowercased(before_first(hh@, ':')) == oh ==> r is Ok))),
        cfg.verify_origin ==> (spec_extract_origin_host(*headers) matches Some(oh) ==> (
        allowed_hosts(domain@, *cfg).contains(oh) ==> r is Ok)),
        r == Err::<(), OriginError>(OriginError::NotAllowed) ==> cfg.verify_origin && (
        spec_extract_origin_host(*headers) matches Some(oh) && !allowed_hosts(domain@, *cfg).contains(oh)
            && !same_origin(headers.host, oh)),
{
    if !cfg.verify_origin {
        return Ok(());
    }
    let origin_host = match extract_origin_host(headers) {
        Some(h) => h,
        None => return Err(OriginError::MissingOrigin),
    };
    if let Some(host_hdr) = &headers.host {
        let hv = chars_of(host_hdr.as_str());
        let n = hv.len();
        let mut colon: Vec<char> = Vec::new();
        colon.push(':');
        assert(colon@ =~= seq![':']);
        assert(hv@.subrange(0, n as int) =~= host_hdr@);
        let end = match find_in(&hv, 0, n, &colon) {
            Some(i) => i,
            None => n,
        };
        let hs = host_hdr.as_str();
        assert(hs@.subrange(0, end as int) =~= before_first(host_hdr@, ':'));
        let host = lowercase_str(hs.substring_char(0, end));
        if host.unicode_len() > 0 && host == origin_host {
            return Ok(());
        }
    }
    let ghost hosts = allowed_hosts(domain@, *cfg);
    if cfg.allowed_origins.len() == 0 {
        let d = lowercase_str(domain);
        assert(hosts =~= seq![d@]);
        if d == origin_host {
            assert(hosts[0] == origin_host@);
            return Ok(());
        }
        assert(!hosts.contains(origin_host@));
        return Err(OriginError::NotAllowed);
    }
    let mut i: usize = 0;
    while i < cfg.allowed_origins.len()
        invariant
            i <= cfg.allowed_origins.len(),
            cfg.allowed_origins@.len() > 0,
            hosts == allowed_hosts(domain@, *cfg),
            hosts.len() == cfg.allowed_origins@.len(),
            cfg.verify_origin,
            spec_extract_origin_host(*headers) == Some(origin_host@),
            forall|j: int| 0 <= j < i ==> hosts[j] != origin_host@,
        decreases cfg.allowed_origins.len() - i,
    {
        let s = cfg.allowed_origins[i].as_str();
        let h = match host_from_origin(s) {
            Some(h) => h,
            None => lowercase_str(s),
        };
        assert(hosts[i as int] == h@);
        if h == origin_host {
            assert(hosts[i as int] == origin_host@);
            return Ok(());
        }
        i = i + 1;
    }
    assert(!hosts.contains(origin_host@));
    Err(OriginError::NotAllowed)
}

/// The host part of any value holds no `/`, `?` or `#`, and when it is not
/// empty it neither starts with `[` nor ends with `]`.
pub proof fn law_host_part_shape(t: Seq<char>)
    ensures
        lacks(origin_host_part(t), '/'),
        lacks(origin_host_part(t), '?'),
        lacks(origin_host_part(t), '#'),
        origin_host_part(t).len() > 0 ==> origin_host_part(t)[0] != '[' && origin_host_part(t).last()
            != ']',
{
    let s1 = match find(t, scheme_separator()) {
        Some(i) => t.subrange(i + 3, t.len() as int),
        None => t,
    };
    let a = before_first(s1, '/');
    let b = before_first(a, '?');
    let c = before_first(b, '#');
    lemma_before_first(s1, '/');
    lemma_before_first(a, '?');
    lemma_before_first(b, '#');
    assert forall|k: int| 0 <= k < c.len() implies c[k] != '/' && c[k] != '?' && c[k] != '#' by {
        assert(c[k] == b[k] && b[k] == a[k]);
    }
    lemma_rfind_below(c, ':', c.len() as int);
    let h = match rfind(c, ':') {
        Some(i) => c.take(i),
        None => c,
    };
    assert forall|k: int| 0 <= k < h.len() implies h[k] == c[k] by {}
    let k0 = skip_leading(h, '[', 0);
    lemma_skip_leading(h, '[', 0);
    let ts = h.subrange(k0, h.len() as int);
    let m = skip_trailing(ts, ']', ts.len() as int);
    lemma_skip_trailing(ts, ']', ts.len() as int);
    let r = ts.take(m);
    assert(r == origin_host_part(t));
    assert forall|k: int| 0 <= k < r.len() implies r[k] == c[k0 + k] by {
        assert(r[k] == ts[k] && ts[k] == h[k0 + k]);
    }
    if r.len() > 0 {
        assert(r[0] == h[k0]);
        assert(r.last() == ts[m - 1]);
    }
}

/// A bare host (no `:`, `/`, `?` or `#`, not starting with `[` nor ending
/// with `]`) is its own host part.
pub proof fn law_bare_host_is_its_own_part(t: Seq<char>)
    requires
        lacks(t, ':'),
        lacks(t, '/'),
        lacks(t, '?'),
        lacks(t, '#'),
        t.len() > 0 ==> t[0] != '[' && t.last() != ']',
    ensures
        origin_host_part(t) == t,
{
    lemma_find_from_hit(t, scheme_separator(), 0);
    if find(t, scheme_separator()) is Some {
        let j = find(t, scheme_separator())->0;
        assert(t[j] == t.subrange(j, j + 3)[0]);
    }
    lemma_before_first(t, '/');
    lemma_before_first(t, '?');
    lemma_before_first(t, '#');
    lemma_rfind_below(t, ':', t.len() as int);
    lemma_skip_leading(t, '[', 0);
    assert(skip_leading(t, '[', 0) == 0);
    assert(t.subrange(0, t.len() as int) =~= t);
    lemma_skip_trailing(t, ']', t.len() as int);
    assert(skip_trailing(t, ']', t.len() as int) == t.len());
    assert(t.take(t.len() as int) =~= t);
}

/// A bare host (as above) with no white space at either end names itself:
/// the host that an `Origin` value made of it names is the host lowercased.
pub proof fn law_bare_host_names_itself(t: Seq<char>)
    requires
        lacks(t, ':'),
        lacks(t, '/'),
        lacks(t, '?'),
        lacks(t, '#'),
        t.len() > 0,
        t[0] != '[',
        t.last() != ']',
        !is_white_space(t[0]),
        !is_white_space(t.last()),
    ensures
        spec_host_from_origin(t) == Some(lowercased(t)),
{
    assert(skip_white_leading(t, 0) == 0);
    assert(t.subrange(0, t.len() as int) =~= t);
    assert(skip_white_trailing(t, t.len() as int) == t.len());
    assert(t.take(t.len() as int) =~= t);
    assert(trimmed(t) == t);
    law_bare_host_is_its_own_part(t);
}

/// The server's own pages are always let in: with origin checks on, a
/// request whose `Origin`/`Referer` host is the host of its `Host` header
/// (without the port, lowercased, not empty) passes, whatever hosts the site
/// allows; and a host that the site lists passes too.
pub proof fn law_same_origin_always_allowed(h: RequestHeaders, domain: Seq<char>, cfg: SiteConfig)
    ensures
        spec_extract_origin_host(h) matches Some(oh) ==> (h.host matches Some(hh) ==> (lowercased(
            before_first(hh@, ':'),
        ).len() > 0 && lowercased(before_first(hh@, ':')) == oh ==> spec_check_origin(h, domain, cfg)
            == Ok::<(), OriginError>(()))),
        spec_extract_origin_host(h) matches Some(oh) ==> (cfg.allowed_origins@.len() > 0 ==> (
        forall|i: int|
            0 <= i < cfg.allowed_origins@.len() && #[trigger] allowed_host(cfg.allowed_origins@[i]@) == oh
                ==> spec_check_origin(h, domain, cfg) == Ok::<(), OriginError>(()))),
        spec_extract_origin_host(h) matches Some(oh) ==> (cfg.allowed_origins@.len() == 0 && oh
            == lowercased(domain) ==> spec_check_origin(h, domain, cfg) == Ok::<(), OriginError>(())),
        !cfg.verify_origin ==> spec_check_origin(h, domain, cfg) == Ok::<(), OriginError>(()),
        cfg.verify_origin && spec_extract_origin_host(h) is None ==> spec_check_origin(h, domain, cfg)
            == Err::<(), OriginError>(OriginError::MissingOrigin),
{
    if let Some(oh) = spec_extract_origin_host(h) {
        assert forall|i: int|
            0 <= i < cfg.allowed_origins@.len() && #[trigger] allowed_host(cfg.allowed_origins@[i]@) == oh
                implies spec_check_origin(h, domain, cfg) == Ok::<(), OriginError>(()) by {
            if cfg.allowed_origins@.len() > 0 {
                let hosts = allowed_hosts(domain, cfg);
                assert(hosts[i] == oh);
            }
        }
        if cfg.allowed_origins@.len() == 0 && oh == lowercased(domain) {
            assert(allowed_hosts(domain, cfg)[0] == oh);
        }
    }
}

} // verus!
