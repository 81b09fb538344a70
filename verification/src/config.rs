//! Configuration of a checking run, and the parsing rules the configuration
//! source applies: `KEY=VALUE` header requirements, newline-delimited URL
//! lists with `#` comments, and the worker-count clamp. Reading argument
//! vectors and files is the collaborator's business; the rules for what the
//! read text means live here.

use vstd::prelude::*;
use crate::text::{first_at, lemma_first_at, trim, trim_str};

verus! {

/// Everything one checking run is configured with. A period of 0 means a
/// single run.
pub struct CheckConfig {
    /// Size of the worker pool, at least 1 after `finalize`.
    pub workers: usize,
    /// Per-attempt timeout in milliseconds.
    pub timeout_ms: u64,
    /// How many times a transport failure is retried.
    pub retries: u32,
    /// Interval between round starts in seconds; 0 means a single run.
    pub period_secs: u64,
    /// Required (header name, exact expected value) pairs.
    pub header_checks: Vec<(String, String)>,
    /// The URLs to probe; never empty after `finalize`.
    pub urls: Vec<String>,
}

impl Default for CheckConfig {
    /// The defaults the configuration source starts from: 50 workers, a
    /// 5000 ms timeout, no retries, a single run, no header requirements.
    fn default() -> (c: CheckConfig)
        ensures
            c.workers == 50,
            c.timeout_ms == 5000,
            c.retries == 0,
            c.period_secs == 0,
            c.header_checks@.len() == 0,
            c.urls@.len() == 0,
    {
        CheckConfig {
            workers: 50,
            timeout_ms: 5000,
            retries: 0,
            period_secs: 0,
            header_checks: Vec::new(),
            urls: Vec::new(),
        }
    }
}

/// The worker-pool size a round runs with: the configured count, at least 1,
/// and never more workers than URLs (no worker would ever get a job).
pub open spec fn spec_pool_size(workers: int, n_urls: int) -> int {
    let w = if workers < 1 {
        1int
    } else {
        workers
    };
    let cap = if n_urls < 1 {
        1int
    } else {
        n_urls
    };
    if w < cap {
        w
    } else {
        cap
    }
}

/// Executable counterpart of `spec_pool_size`.
pub fn pool_size(workers: usize, n_urls: usize) -> (n: usize)
    ensures
        n == spec_pool_size(workers as int, n_urls as int),
        1 <= n,
{
    let w = if workers < 1 {
        1
    } else {
        workers
    };
    let cap = if n_urls < 1 {
        1
    } else {
        n_urls
    };
    if w < cap {
        w
    } else {
        cap
    }
}

/// Parses a `KEY=VALUE` header requirement: the text before the first `=`,
/// trimmed, is the header name and must not be empty; everything after it,
/// trimmed, is the expected value, which may be empty. Text without `=` is
/// rejected.
pub fn parse_header_kv(s: &str) -> (r: Result<(String, String), &'static str>)
    ensures
        match first_at(s@, '=') {
            None => r matches Err(m) && m@ == "missing value"@,
            Some(i) => {
                if trim(s@.take(i as int)).len() == 0 {
                    r matches Err(m) && m@ == "empty key"@
                } else {
                    r matches Ok(kv) && kv.0@ == trim(s@.take(i as int)) && kv.1@ == trim(
                        s@.skip(i as int + 1),
                    )
                }
            },
        },
{
    let n = s.unicode_len();
    let mut i: usize = 0;
    while i < n && s.get_char(i) != '='
        invariant
            n == s@.len(),
            i <= n,
            forall|k: int| 0 <= k < i ==> s@[k] != '=',
        decreases n - i,
    {
        i = i + 1;
    }
    proof {
        lemma_first_at(s@, '=', i as int);
    }
    if i == n {
        return Err("missing value");
    }
    let key = trim_str(s.substring_char(0, i));
    let value = trim_str(s.substring_char(i + 1, n));
    proof {
        assert(s@.subrange(0, i as int) =~= s@.take(i as int));
        assert(s@.subrange(i + 1, n as int) =~= s@.skip(i + 1));
    }
    if key.as_str().is_empty() {
        return Err("empty key");
    }
    Ok((key, value))
}

/// Whether a trimmed line of a URL file names a URL: neither blank nor a
/// `#`-prefixed comment.
pub open spec fn line_kept(t: Seq<char>) -> bool {
    t.len() > 0 && t.first() != '#'
}

/// The URLs a newline-delimited text supplies: each line trimmed, blank
/// lines and `#`-prefixed comment lines dropped, order kept.
pub open spec fn kept_urls(s: Seq<char>) -> Seq<Seq<char>>
    decreases s.len(),
{
    if s.len() == 0 {
        Seq::empty()
    } else {
        match first_at(s, '\n') {
            None => if line_kept(trim(s)) {
                seq![trim(s)]
            } else {
                Seq::empty()
            },
            Some(i) => {
                let j = if i as int + 1 <= s.len() {
                    i as int + 1
                } else {
                    s.len() as int
                };
                (if line_kept(trim(s.take(j - 1))) {
                    seq![trim(s.take(j - 1))]
                } else {
                    Seq::empty()
                }) + kept_urls(s.skip(j))
            },
        }
    }
}

/// Reads the URLs out of a newline-delimited text, dropping blank lines and
/// `#`-prefixed comments and trimming the rest, in order.
pub fn urls_from_lines(text: &str) -> (r: Vec<String>)
    ensures
        r.deep_view() == kept_urls(text@),
{
    let n = text.unicode_len();
    let mut out: Vec<String> = Vec::new();
    let mut pos: usize = 0;
    proof {
        assert(text@.skip(0) =~= text@);
        assert(out.deep_view() =~= Seq::<Seq<char>>::empty());
        assert(out.deep_view() + kept_urls(text@) =~= kept_urls(text@));
    }
    while pos < n
        invariant
            n == text@.len(),
            pos <= n,
            out.deep_view() + kept_urls(text@.skip(pos as int)) =~= kept_urls(text@),
        decreases n - pos,
    {
        let ghost rem = text@.skip(pos as int);
        let mut i: usize = pos;
        while i < n && text.get_char(i) != '\n'
            invariant
                n == text@.len(),
                pos <= i <= n,
                forall|k: int| pos <= k < i ==> text@[k] != '\n',
            decreases n - i,
        {
            i = i + 1;
        }
        proof {
            assert(forall|k: int| 0 <= k < i - pos ==> #[trigger] rem[k] != '\n');
            lemma_first_at(rem, '\n', i - pos);
        }
        let line = text.substring_char(pos, i);
        proof {
            assert(line@ =~= rem.take(i - pos));
        }
        let t = trim_str(line);
        let keep = if t.as_str().is_empty() {
            false
        } else {
            t.as_str().get_char(0) != '#'
        };
        let ghost out_pre = out.deep_view();
        if keep {
            out.push(t);
            proof {
                assert(out.deep_view() =~= out_pre.push(t@));
            }
        }
        if i == n {
            proof {
                assert(kept_urls(rem) =~= if line_kept(trim(rem)) {
                    seq![trim(rem)]
                } else {
                    Seq::<Seq<char>>::empty()
                });
                assert(rem.take(i - pos) =~= rem);
                assert(out.deep_view() + kept_urls(text@.skip(n as int)) =~= kept_urls(text@)) by {
                    assert(text@.skip(n as int) =~= Seq::<char>::empty());
                    assert(kept_urls(Seq::<char>::empty()) =~= Seq::<Seq<char>>::empty());
                    if keep {
                        assert(out.deep_view() =~= out_pre.push(trim(rem)));
                        assert(kept_urls(rem) =~= seq![trim(rem)]);
                        assert(out_pre + kept_urls(rem) =~= out.deep_view());
                    } else {
                        assert(out.deep_view() + kept_urls(rem) =~= out_pre + kept_urls(rem));
                    }
                }
            }
            pos = n;
        } else {
            proof {
                assert(kept_urls(rem) =~= (if line_kept(trim(rem.take(i - pos))) {
                    seq![trim(rem.take(i - pos))]
                } else {
                    Seq::<Seq<char>>::empty()
                }) + kept_urls(rem.skip(i - pos + 1)));
                assert(rem.skip(i - pos + 1) =~= text@.skip(i + 1));
                if keep {
                    assert(out.deep_view() + kept_urls(text@.skip(i + 1)) =~= out_pre + kept_urls(
                        rem,
                    ));
                } else {
                    assert(out.deep_view() + kept_urls(text@.skip(i + 1)) =~= out_pre + kept_urls(
                        rem,
                    ));
                }
            }
            pos = i + 1;
        }
    }
    proof {
        assert(text@.skip(pos as int) =~= Seq::<char>::empty());
        assert(kept_urls(Seq::<char>::empty()) =~= Seq::<Seq<char>>::empty());
        assert(out.deep_view() =~= kept_urls(text@));
    }
    out
}

/// The final validation the configuration source owes the engine: a run with
/// no URLs is rejected before any round starts, and the worker count is
/// clamped to the URL count but kept at least 1.
pub fn finalize(cfg: CheckConfig) -> (r: Result<CheckConfig, &'static str>)
    ensures
        match r {
            Ok(c) => {
                &&& cfg.urls@.len() > 0
                &&& c.workers == spec_pool_size(cfg.workers as int, cfg.urls@.len() as int)
                &&& c.timeout_ms == cfg.timeout_ms
                &&& c.retries == cfg.retries
                &&& c.period_secs == cfg.period_secs
                &&& c.header_checks == cfg.header_checks
                &&& c.urls == cfg.urls
            },
            Err(m) => cfg.urls@.len() == 0 && m@ == "no URLs provided. Pass them as args or with --file path"@,
        },
{
    if cfg.urls.len() == 0 {
        return Err("no URLs provided. Pass them as args or with --file path");
    }
    let workers = pool_size(cfg.workers, cfg.urls.len());
    Ok(
        CheckConfig {
            workers,
            timeout_ms: cfg.timeout_ms,
            retries: cfg.retries,
            period_secs: cfg.period_secs,
            header_checks: cfg.header_checks,
            urls: cfg.urls,
        },
    )
}

} // verus!
