//! The tool's configuration values and the pure rules for updating them.

use vstd::prelude::*;

verus! {

/// The stored configuration: the tracker's address and token, the holiday
/// source's address and country, and whether grids show weekends.
#[derive(Debug)]
pub struct Config {
    pub jira_url: String,
    pub jira_token: String,
    pub show_weekends: bool,
    pub nager_url: Option<String>,
    pub nager_country_code: Option<String>,
}

impl Clone for Config {
    /// Copies the configuration field for field.
    fn clone(&self) -> (r: Self)
        ensures
            r.jira_url@ == self.jira_url@,
            r.jira_token@ == self.jira_token@,
            r.show_weekends == self.show_weekends,
            option_string_view(r.nager_url) == option_string_view(self.nager_url),
            option_string_view(r.nager_country_code) == option_string_view(
                self.nager_country_code,
            ),
    {
        Config {
            jira_url: self.jira_url.clone(),
            jira_token: self.jira_token.clone(),
            show_weekends: self.show_weekends,
            nager_url: clone_option_string(&self.nager_url),
            nager_country_code: clone_option_string(&self.nager_country_code),
        }
    }
}

/// The characters of an optional string.
pub open spec fn option_string_view(o: Option<String>) -> Option<Seq<char>> {
    match o {
        Some(s) => Some(s@),
        None => None,
    }
}

/// Copies an optional string.
pub fn clone_option_string(o: &Option<String>) -> (r: Option<String>)
    ensures
        option_string_view(r) == option_string_view(*o),
{
    match o {
        Some(s) => Some(s.clone()),
        None => None,
    }
}

/// Number of trailing `/` characters.
pub open spec fn trailing_slash_count(s: Seq<char>) -> int
    decreases s.len(),
{
    if s.len() > 0 && s.last() == '/' {
        1 + trailing_slash_count(s.drop_last())
    } else {
        0
    }
}

/// Length of the repeated scheme prefixes at the front of `s`: every
/// repetition of `https://`, then every repetition of `http://`.
pub open spec fn scheme_prefix_len(s: Seq<char>) -> int {
    let after_https = repeated_prefix_len(s, "https://"@);
    after_https + repeated_prefix_len(s.skip(after_https), "http://"@)
}

/// Length of the repetitions of `p` at the front of `s`.
pub open spec fn repeated_prefix_len(s: Seq<char>, p: Seq<char>) -> int
    decreases s.len(),
{
    if p.len() == 0 {
        0
    } else if s.len() >= p.len() && s.take(p.len() as int) == p {
        p.len() + repeated_prefix_len(s.skip(p.len() as int), p)
    } else {
        0
    }
}

/// A stored tracker address: the given one without trailing slashes and
/// without its leading `https://` or `http://` scheme repetitions.
pub open spec fn clean_url_of(s: Seq<char>) -> Seq<char> {
    let trimmed = s.take(s.len() - trailing_slash_count(s));
    trimmed.skip(scheme_prefix_len(trimmed))
}

/// Strips trailing slashes, then every leading `https://`, then every
/// leading `http://` from a tracker address.
pub fn clean_jira_url(raw: &str) -> (r: String)
    ensures
        r@ == clean_url_of(raw@),
{
    let v = crate::strutil::str_chars(raw);
    let n = v.len();
    let mut hi: usize = n;
    proof {
        assert(v@.take(n as int) =~= v@);
    }
    while hi > 0 && v[hi - 1] == '/'
        invariant
            hi <= n,
            n == v@.len(),
            trailing_slash_count(v@) == (n - hi) + trailing_slash_count(v@.take(hi as int)),
        decreases hi,
    {
        proof {
            assert(v@.take(hi as int).last() == v@[hi - 1]);
            assert(v@.take(hi as int).drop_last() =~= v@.take(hi - 1));
        }
        hi = hi - 1;
    }
    proof {
        assert(trailing_slash_count(v@.take(hi as int)) == 0);
    }
    let trimmed = crate::strutil::subchars(&v, 0, hi);
    proof {
        assert(trimmed@ =~= v@.take(hi as int));
    }
    proof {
        assert(trimmed@.skip(0) =~= trimmed@);
        reveal_strlit("https://");
        reveal_strlit("http://");
    }
    let after_https = skip_repeated_prefix(&trimmed, 0, "https://");
    let after_http = skip_repeated_prefix(&trimmed, after_https, "http://");
    proof {
        assert(trimmed@.skip(after_https as int).skip(
            repeated_prefix_len(trimmed@.skip(after_https as int), "http://"@),
        ) =~= trimmed@.skip(scheme_prefix_len(trimmed@)));
    }
    crate::strutil::chars_to_string(&crate::strutil::subchars(&trimmed, after_http, trimmed.len()))
}

/// First index at or after `from` that does not continue a repetition of
/// `pat`.
fn skip_repeated_prefix(v: &Vec<char>, from: usize, pat: &str) -> (r: usize)
    requires
        from <= v@.len(),
        pat@.len() >= 1,
    ensures
        from <= r <= v@.len(),
        r - from == repeated_prefix_len(v@.skip(from as int), pat@),
{
    let plen = pat.unicode_len();
    let n = v.len();
    let mut pos: usize = from;
    loop
        invariant
            n == v@.len(),
            from <= pos <= n,
            plen == pat@.len(),
            plen >= 1,
            repeated_prefix_len(v@.skip(from as int), pat@) == (pos - from) + repeated_prefix_len(
                v@.skip(pos as int),
                pat@,
            ),
        decreases v@.len() - pos,
    {
        if n - pos < plen {
            proof {
                assert(v@.skip(pos as int).len() < pat@.len());
            }
            return pos;
        }
        let mut k: usize = 0;
        let mut matches_here: bool = true;
        while k < plen
            invariant
                k <= plen,
                plen == pat@.len(),
                n == v@.len(),
                pos + plen <= n,
                matches_here == (forall|t: int|
                    0 <= t < k ==> v@.skip(pos as int).take(plen as int)[t] == pat@[t]),
            decreases plen - k,
        {
            proof {
                assert(v@.skip(pos as int).take(plen as int)[k as int] == v@[pos + k]);
            }
            if v[pos + k] != pat.get_char(k) {
                matches_here = false;
                proof {
                    assert(v@.skip(pos as int).take(plen as int)[k as int] != pat@[k as int]);
                }
                k = plen;
            } else {
                k = k + 1;
            }
        }
        if !matches_here {
            proof {
                assert(v@.skip(pos as int).take(plen as int) != pat@);
            }
            return pos;
        }
        proof {
            assert(v@.skip(pos as int).take(plen as int) =~= pat@);
            assert(v@.skip(pos as int).skip(plen as int) =~= v@.skip(pos + plen));
        }
        pos = pos + plen;
    }
}

/// Applies command-line overrides to a configuration: each given value
/// replaces the stored one, and the result says whether anything was given.
pub fn apply_config_updates(
    config: Config,
    url: &Option<String>,
    token: &Option<String>,
    nager_url: &Option<Option<String>>,
    nager_country_code: &Option<Option<String>>,
    show_weekends: &Option<bool>,
) -> (r: (Config, bool))
    ensures
        r.0.jira_url@ == match url {
            Some(u) => clean_url_of(u@),
            None => config.jira_url@,
        },
        r.0.jira_token@ == match token {
            Some(t) => t@,
            None => config.jira_token@,
        },
        option_string_view(r.0.nager_url) == match nager_url {
            Some(nu) => option_string_view(*nu),
            None => option_string_view(config.nager_url),
        },
        option_string_view(r.0.nager_country_code) == match nager_country_code {
            Some(nc) => option_string_view(*nc),
            None => option_string_view(config.nager_country_code),
        },
        r.0.show_weekends == match show_weekends {
            Some(b) => *b,
            None => config.show_weekends,
        },
        r.1 == (url matches Some(_) || token matches Some(_) || nager_url matches Some(_)
            || nager_country_code matches Some(_) || show_weekends matches Some(_)),
{
    let mut cfg = config;
    let mut changed: bool = false;
    match url {
        Some(raw) => {
            cfg.jira_url = clean_jira_url(raw.as_str());
            changed = true;
        },
        None => {},
    }
    match token {
        Some(t) => {
            cfg.jira_token = t.clone();
            changed = true;
        },
        None => {},
    }
    match nager_url {
        Some(nu) => {
            cfg.nager_url = clone_option_string(nu);
            changed = true;
        },
        None => {},
    }
    match nager_country_code {
        Some(nc) => {
            cfg.nager_country_code = clone_option_string(nc);
            changed = true;
        },
        None => {},
    }
    match show_weekends {
        Some(b) => {
            cfg.show_weekends = *b;
            changed = true;
        },
        None => {},
    }
    (cfg, changed)
}

} // verus!
