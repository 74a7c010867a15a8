//! The shell's texts and checks: the tray's off-work entry, the message of a
//! failed shortcut registration, and which links may be opened outside.

use vstd::prelude::*;

use crate::text::{chars_of, concat, text_eq};

verus! {

/// The label of the Quick Add window.
pub const QUICK_ADD_LABEL: &'static str = "quickadd";

/// The tray entry that switches off work: resume recording while off work,
/// stop recording otherwise.
pub fn off_work_label(off_work: bool) -> (s: &'static str)
    ensures
        s@ == if off_work {
            "恢复记录"@
        } else {
            "下班 / 停止记录"@
        },
{
    if off_work {
        "恢复记录"
    } else {
        "下班 / 停止记录"
    }
}

/// The message of a shortcut that could not be registered.
pub open spec fn shortcut_error_text(accel: Seq<char>) -> Seq<char> {
    "快捷键 \""@ + accel + "\" 注册失败,请在设置中更换"@
}

/// The message of a shortcut that could not be registered, naming it.
pub fn shortcut_error_message(accel: &str) -> (msg: String)
    ensures
        msg@ == shortcut_error_text(accel@),
{
    let head = concat("快捷键 \"", accel);
    concat(head.as_str(), "\" 注册失败,请在设置中更换")
}

/// `i` is the position of the first `:` of `s`.
pub open spec fn first_colon_at(s: Seq<char>, i: int) -> bool {
    &&& 0 <= i < s.len()
    &&& s[i] == ':'
    &&& forall|j: int| 0 <= j < i ==> s[j] != ':'
}

/// A link that may be opened outside: its scheme (what comes before the
/// first `:`) is `http`, `https` or `mailto`.
pub open spec fn url_allowed(s: Seq<char>) -> bool {
    exists|i: int|
        first_colon_at(s, i) && i > 0 && {
            let scheme = #[trigger] s.subrange(0, i);
            scheme == "http"@ || scheme == "https"@ || scheme == "mailto"@
        }
}

/// An ASCII letter or digit, or one of `+ . -`: what a scheme is made of
/// after its first letter.
pub open spec fn is_scheme_char(c: char) -> bool {
    ('a' <= c && c <= 'z') || ('A' <= c && c <= 'Z') || ('0' <= c && c <= '9') || c == '+'
        || c == '.' || c == '-'
}

/// Whether a link may be opened outside (see `url_allowed`).  The scheme
/// must first be a well-formed scheme: a letter, then letters, digits and
/// `+ . -`.
pub fn is_external_url_allowed(url: &str) -> (r: bool)
    ensures
        r == url_allowed(url@),
{
    let t = chars_of(url);
    let mut colon: usize = 0;
    while colon < t.len() && t[colon] != ':'
        invariant
            t@ == url@,
            colon <= t@.len(),
            forall|j: int| 0 <= j < colon ==> t@[j] != ':',
        decreases t@.len() - colon,
    {
        colon = colon + 1;
    }
    proof {
        reveal_strlit("http");
        reveal_strlit("https");
        reveal_strlit("mailto");
    }
    if colon == t.len() || colon == 0 {
        proof {
            if url_allowed(url@) {
                let i = choose|i: int|
                    first_colon_at(url@, i) && i > 0 && {
                        let scheme = #[trigger] url@.subrange(0, i);
                        scheme == "http"@ || scheme == "https"@ || scheme == "mailto"@
                    };
                if colon == 0 && t.len() > 0 {
                    assert(url@[0] == ':');
                }
            }
        }
        return false;
    }
    assert(first_colon_at(url@, colon as int));
    let first = t[0];
    if !(('a' <= first && first <= 'z') || ('A' <= first && first <= 'Z')) {
        proof {
            if url_allowed(url@) {
                let i = choose|i: int|
                    first_colon_at(url@, i) && i > 0 && {
                        let scheme = #[trigger] url@.subrange(0, i);
                        scheme == "http"@ || scheme == "https"@ || scheme == "mailto"@
                    };
                assert(i == colon);
                assert(url@.subrange(0, i)[0] == url@[0]);
            }
        }
        return false;
    }
    let mut k: usize = 1;
    while k < colon
        invariant
            t@ == url@,
            1 <= k <= colon < t@.len(),
            first_colon_at(url@, colon as int),
            forall|j: int| 1 <= j < k ==> is_scheme_char(#[trigger] t@[j]),
        decreases colon - k,
    {
        let c = t[k];
        if !(('a' <= c && c <= 'z') || ('A' <= c && c <= 'Z') || ('0' <= c && c <= '9') || c == '+'
            || c == '.' || c == '-') {
            proof {
                if url_allowed(url@) {
                    let i = choose|i: int|
                        first_colon_at(url@, i) && i > 0 && {
                            let scheme = #[trigger] url@.subrange(0, i);
                            scheme == "http"@ || scheme == "https"@ || scheme == "mailto"@
                        };
                    if i < colon {
                        assert(url@[i] == ':');
                    }
                    if i > colon {
                        assert(url@[colon as int] == ':');
                    }
                    assert(i == colon);
                    assert(url@.subrange(0, i)[k as int] == url@[k as int]);
                    reveal_strlit("http");
                    reveal_strlit("https");
                    reveal_strlit("mailto");
                    assert(forall|j: int| 0 <= j < 4 ==> is_scheme_char(#[trigger] "http"@[j]));
                    assert(forall|j: int| 0 <= j < 5 ==> is_scheme_char(#[trigger] "https"@[j]));
                    assert(forall|j: int| 0 <= j < 6 ==> is_scheme_char(#[trigger] "mailto"@[j]));
                    let scheme = url@.subrange(0, i);
                    assert("http"@.len() == 4);
                    assert(scheme.len() == colon);
                    assert(k < colon);
                    if scheme == "http"@ {
                        assert(k < 4);
                        assert(is_scheme_char("http"@[k as int]));
                    } else if scheme == "https"@ {
                        assert(is_scheme_char("https"@[k as int]));
                    } else {
                        assert(is_scheme_char("mailto"@[k as int]));
                    }
                }
            }
            return false;
        }
        k = k + 1;
    }
    let scheme = url.substring_char(0, colon);
    let r = text_eq(scheme, "http") || text_eq(scheme, "https") || text_eq(scheme, "mailto");
    proof {
        if url_allowed(url@) {
            let i = choose|i: int|
                first_colon_at(url@, i) && i > 0 && {
                    let scheme = #[trigger] url@.subrange(0, i);
                    scheme == "http"@ || scheme == "https"@ || scheme == "mailto"@
                };
            assert(i == colon);
        }
        if r {
            assert(url@.subrange(0, colon as int) == scheme@);
        }
    }
    r
}

} // verus!
