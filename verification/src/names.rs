use vstd::prelude::*;

use crate::text::{
    after_last, before_first, dec_rep, find_char, lemma_after_last_none,
    lemma_before_first_prefix, lemma_first_index, lemma_last_index, rfind_char, str_eq, trim_str,
    trimmed, u64_to_dec,
};

verus! {

/// The name a URL yields on its own: the last `/`-delimited segment, cut
/// before its first `.`.
pub open spec fn derived_from_url(url: Seq<char>) -> Seq<char> {
    before_first(after_last(url, '/'), '.')
}

/// Derived names that are too generic to identify a mod: the default
/// branch names and anything of two characters or fewer.
pub open spec fn denylisted(s: Seq<char>) -> bool {
    ||| s == seq!['m', 'a', 'i', 'n']
    ||| s == seq!['m', 'a', 's', 't', 'e', 'r']
    ||| s.len() <= 2
}

/// The synthesized fallback: a fixed prefix plus the supplied Unix time in
/// seconds, fresh on each fallback.
pub open spec fn fallback_name(now_secs: u64) -> Seq<char> {
    seq!['m', 'o', 'd', '_'] + dec_rep(now_secs as nat)
}

/// The name derived from the URL, or the synthesized fallback when that
/// derivation is denylisted.
pub open spec fn derived_or_fallback(url: Seq<char>, now_secs: u64) -> Seq<char> {
    if denylisted(derived_from_url(url)) {
        fallback_name(now_secs)
    } else {
        derived_from_url(url)
    }
}

/// The installed directory's name: the explicit name when it is non-empty
/// after trimming, otherwise the URL derivation with its fallback.
pub open spec fn resolved_name(
    explicit: Option<Seq<char>>,
    url: Seq<char>,
    now_secs: u64,
) -> Seq<char> {
    match explicit {
        Some(e) => {
            if trimmed(e).len() > 0 {
                trimmed(e)
            } else {
                derived_or_fallback(url, now_secs)
            }
        },
        None => derived_or_fallback(url, now_secs),
    }
}

/// Resolves the installed directory's name from an optional explicit name
/// and the source URL; `now_secs` feeds the synthesized fallback so that
/// callers control the clock.
pub fn resolve_name(explicit: Option<&String>, url: &str, now_secs: u64) -> (r: String)
    ensures
        r@ == resolved_name(
            match explicit {
                Some(e) => Some(e@),
                None => None,
            },
            url@,
            now_secs,
        ),
{
    if let Some(e) = explicit {
        let t = trim_str(e.as_str());
        if t.as_str().unicode_len() > 0 {
            return t;
        }
    }
    let n = url.unicode_len();
    let seg: &str = match rfind_char(url, '/') {
        None => {
            proof {
                lemma_after_last_none(url@, '/');
            }
            url
        },
        Some(i) => {
            let s = url.substring_char(i + 1, n);
            proof {
                lemma_last_index(url@, '/', i as int);
                assert(url@.subrange(i as int + 1, n as int) =~= url@.skip(i as int + 1));
            }
            s
        },
    };
    let m = seg.unicode_len();
    let cand: &str = match find_char(seg, '.') {
        None => {
            proof {
                lemma_first_index(seg@, '.', m as int);
                assert(seg@.take(m as int) =~= seg@);
            }
            seg
        },
        Some(i) => {
            let s = seg.substring_char(0, i);
            proof {
                lemma_first_index(seg@, '.', i as int);
                assert(seg@.subrange(0, i as int) =~= seg@.take(i as int));
            }
            s
        },
    };
    proof {
        reveal_strlit("main");
        reveal_strlit("master");
        assert("main"@ =~= seq!['m', 'a', 'i', 'n']);
        assert("master"@ =~= seq!['m', 'a', 's', 't', 'e', 'r']);
    }
    if str_eq(cand, "main") || str_eq(cand, "master") || cand.unicode_len() <= 2 {
        let r = String::from_str("mod_").concat(u64_to_dec(now_secs).as_str());
        proof {
            reveal_strlit("mod_");
            assert("mod_"@ =~= seq!['m', 'o', 'd', '_']);
        }
        r
    } else {
        String::from_str(cand)
    }
}

/// A resolved name that did not come from an explicit request is always a
/// plain path segment: the URL derivation contains no `/` and is longer
/// than two characters whenever it is kept, and the fallback is the fixed
/// prefix plus decimal digits.
pub proof fn lemma_derived_name_plain(url: Seq<char>, now_secs: u64)
    ensures
        crate::paths::seg_ok(derived_or_fallback(url, now_secs)),
{
    let seg = after_last(url, '/');
    let cand = before_first(seg, '.');
    lemma_before_first_prefix(seg, '.');
    if denylisted(cand) {
        let f = fallback_name(now_secs);
        lemma_dec_rep_digits(now_secs as nat);
        assert(f.len() >= 5);
        assert forall|i: int| 0 <= i < f.len() implies f[i] != '/' by {
            if i >= 4 {
                assert(f[i] == dec_rep(now_secs as nat)[i - 4]);
            }
        }
    } else {
        assert(cand.len() > 2);
        assert forall|i: int| 0 <= i < cand.len() implies cand[i] != '/' by {
            assert(cand[i] == seg[i]);
            lemma_seg_no_slash(url);
        }
    }
}

/// The segment after the last `/` contains no `/`.
proof fn lemma_seg_no_slash(url: Seq<char>)
    ensures
        forall|w: int| 0 <= w < after_last(url, '/').len() ==> #[trigger] after_last(url, '/')[w]
            != '/',
    decreases url.len(),
{
    let seg = after_last(url, '/');
    if url.len() == 0 {
    } else if url.last() == '/' {
    } else {
        lemma_seg_no_slash(url.drop_last());
        assert forall|w: int| 0 <= w < seg.len() implies seg[w] != '/' by {
            if w == seg.len() - 1 {
                assert(seg[w] == url.last());
            } else {
                assert(seg[w] == after_last(url.drop_last(), '/')[w]);
            }
        }
    }
}

/// Every character of a decimal representation is a digit, hence not `/`,
/// and it is never empty. The slash fact is what `lemma_derived_name_plain`
/// needs; the digit fact is stated as the range of `digit_char`.
pub proof fn lemma_dec_rep_digits(n: nat)
    ensures
        dec_rep(n).len() >= 1,
        forall|i: int| 0 <= i < dec_rep(n).len() ==> #[trigger] dec_rep(n)[i] != '/',
    decreases n,
{
    if n >= 10 {
        lemma_dec_rep_digits(n / 10);
    }
}

} // verus!
