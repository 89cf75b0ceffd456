//! Semantic versions, as used for the `cniVersion` field, and the version
//! negotiation rule.
//!
//! A version is `major.minor.patch`, optionally followed by `-` and a
//! pre-release tag and by `+` and build metadata. The plugin understands
//! exactly spec version 0.4.0 and the 1.x line, pre-releases excluded; see
//! [`compatible`].

use vstd::prelude::*;

use crate::json::{digits_end, lemma_digits_end, p_digits_end};
use crate::text::{
    all_digits, chars_to_string, dec_chars, dec_val, is_digit, parse_u64_digits,
    push_u64_digits, str_to_chars,
};

verus! {

/// A semantic version.
pub struct Version {
    pub major: u64,
    pub minor: u64,
    pub patch: u64,
    /// The pre-release tag, without its leading `-`; empty if none.
    pub pre: String,
    /// The build metadata, without its leading `+`; empty if none.
    pub build: String,
}

/// The parts of a version, in specification land.
pub ghost struct VersionV {
    pub major: u64,
    pub minor: u64,
    pub patch: u64,
    pub pre: Seq<char>,
    pub build: Seq<char>,
}

impl vstd::prelude::DeepView for Version {
    type V = VersionV;

    open spec fn deep_view(&self) -> VersionV {
        VersionV {
            major: self.major,
            minor: self.minor,
            patch: self.patch,
            pre: self.pre@,
            build: self.build@,
        }
    }
}

/// The characters allowed in pre-release and build identifiers.
pub open spec fn is_ident_char(c: char) -> bool {
    is_digit(c) || (97 <= (c as u32) && (c as u32) <= 122) || (65 <= (c as u32) && (c as u32)
        <= 90) || c == '-'
}

/// The first index at or after `i` that holds no identifier character.
pub open spec fn ident_end(s: Seq<char>, i: int) -> int
    decreases s.len() - i when i <= s.len()
{
    if i < s.len() && is_ident_char(s[i]) {
        ident_end(s, i + 1)
    } else {
        i
    }
}

pub proof fn lemma_ident_end(s: Seq<char>, i: int)
    requires
        0 <= i <= s.len(),
    ensures
        i <= ident_end(s, i) <= s.len(),
        forall|x: int| i <= x < ident_end(s, i) ==> is_ident_char(#[trigger] s[x]),
        ident_end(s, i) < s.len() ==> !is_ident_char(s[ident_end(s, i)]),
    decreases s.len() - i,
{
    if i < s.len() && is_ident_char(s[i]) {
        lemma_ident_end(s, i + 1);
    }
}

/// Whether one pre-release identifier is well formed: non-empty,
/// identifier characters only, and no leading zero if numeric.
pub open spec fn pre_ident_wf(s: Seq<char>) -> bool {
    &&& s.len() > 0
    &&& forall|x: int| 0 <= x < s.len() ==> is_ident_char(#[trigger] s[x])
    &&& (all_digits(s) && s.len() > 1 ==> s[0] != '0')
}

/// Whether one build identifier is well formed: non-empty, identifier
/// characters only.
pub open spec fn build_ident_wf(s: Seq<char>) -> bool {
    &&& s.len() > 0
    &&& forall|x: int| 0 <= x < s.len() ==> is_ident_char(#[trigger] s[x])
}

/// Whether a dot-separated identifier list is well formed, under the
/// pre-release rule (`numeric`) or the build rule.
pub open spec fn idents_wf(s: Seq<char>, i: int, numeric: bool) -> bool
    decreases s.len() - i when 0 <= i <= s.len()
{
    let e = ident_end(s, i);
    &&& e > i
    &&& (if numeric {
        pre_ident_wf(s.subrange(i, e))
    } else {
        build_ident_wf(s.subrange(i, e))
    })
    &&& (e == s.len() || (e < s.len() && s[e] == '.' && e + 1 <= s.len() && idents_wf(
        s,
        e + 1,
        numeric,
    )))
}

/// Whether a numeric field is well formed at `i` up to `e`: non-empty
/// digits, no leading zero, and a value that fits in a `u64`.
pub open spec fn num_field_wf(s: Seq<char>, i: int, e: int) -> bool {
    &&& i < e <= s.len()
    &&& e == digits_end(s, i)
    &&& (s[i] == '0' ==> e == i + 1)
    &&& dec_val(s.subrange(i, e)) <= u64::MAX
}

/// The first index at or after `i` that holds `+`, or the length.
pub open spec fn plus_end(s: Seq<char>, i: int) -> int
    decreases s.len() - i when i <= s.len()
{
    if i < s.len() && s[i] != '+' {
        plus_end(s, i + 1)
    } else {
        i
    }
}

pub proof fn lemma_plus_end(s: Seq<char>, i: int)
    requires
        0 <= i <= s.len(),
    ensures
        i <= plus_end(s, i) <= s.len(),
        forall|x: int| i <= x < plus_end(s, i) ==> #[trigger] s[x] != '+',
        plus_end(s, i) < s.len() ==> s[plus_end(s, i)] == '+',
    decreases s.len() - i,
{
    if i < s.len() && s[i] != '+' {
        lemma_plus_end(s, i + 1);
    }
}

/// Parses a version out of its text: the three numbers, the pre-release
/// tag, and the build metadata.
pub open spec fn parse_version(s: Seq<char>) -> Option<VersionV> {
    let d1 = digits_end(s, 0);
    let d2 = digits_end(s, d1 + 1);
    let d3 = digits_end(s, d2 + 1);
    if !(num_field_wf(s, 0, d1) && d1 < s.len() && s[d1] == '.' && num_field_wf(s, d1 + 1, d2)
        && d2 < s.len() && s[d2] == '.' && num_field_wf(s, d2 + 1, d3)) {
        None
    } else {
        let major = dec_val(s.subrange(0, d1)) as u64;
        let minor = dec_val(s.subrange(d1 + 1, d2)) as u64;
        let patch = dec_val(s.subrange(d2 + 1, d3)) as u64;
        if d3 == s.len() {
            Some(
                VersionV { major, minor, patch, pre: Seq::empty(), build: Seq::empty() },
            )
        } else if s[d3] == '-' {
            let pp = plus_end(s, d3 + 1);
            let pre = s.subrange(d3 + 1, pp);
            if !idents_wf(pre, 0, true) {
                None
            } else if pp == s.len() {
                Some(VersionV { major, minor, patch, pre, build: Seq::empty() })
            } else {
                let build = s.subrange(pp + 1, s.len() as int);
                if idents_wf(build, 0, false) {
                    Some(VersionV { major, minor, patch, pre, build })
                } else {
                    None
                }
            }
        } else if s[d3] == '+' {
            let build = s.subrange(d3 + 1, s.len() as int);
            if idents_wf(build, 0, false) {
                Some(
                    VersionV { major, minor, patch, pre: Seq::empty(), build },
                )
            } else {
                None
            }
        } else {
            None
        }
    }
}

/// The text of a version: the three numbers, `-` and the pre-release tag
/// if any, `+` and the build metadata if any.
pub open spec fn version_chars(v: VersionV) -> Seq<char> {
    dec_chars(v.major as nat) + seq!['.'] + dec_chars(v.minor as nat) + seq!['.'] + dec_chars(
        v.patch as nat,
    ) + (if v.pre.len() > 0 {
        seq!['-'] + v.pre
    } else {
        Seq::empty()
    }) + (if v.build.len() > 0 {
        seq!['+'] + v.build
    } else {
        Seq::empty()
    })
}

/// Whether this plugin understands the given spec version: exactly 0.4.0,
/// or any 1.x release, pre-releases excluded.
pub open spec fn compatible(v: VersionV) -> bool {
    v.pre.len() == 0 && ((v.major == 0 && v.minor == 4 && v.patch == 0) || v.major == 1)
}

impl Version {
    /// Whether the version is well formed: pre-release and build parts,
    /// when present, are dot-separated identifier lists.
    pub open spec fn wf(self) -> bool {
        &&& (self.pre@.len() > 0 ==> idents_wf(self.pre@, 0, true))
        &&& (self.build@.len() > 0 ==> idents_wf(self.build@, 0, false))
        &&& (forall|x: int| 0 <= x < self.pre@.len() ==> #[trigger] self.pre@[x] != '+')
    }

    /// Parses a version from text.
    pub fn parse(s: &str) -> (r: Option<Version>)
        ensures
            match r {
                Some(v) => parse_version(s@) == Some(v.deep_view()) && v.wf(),
                None => parse_version(s@) is None,
            },
    {
        let cs = str_to_chars(s);
        Self::parse_chars(&cs)
    }

    /// Parses a version from characters.
    #[verifier::rlimit(100)]
    pub fn parse_chars(cs: &Vec<char>) -> (r: Option<Version>)
        ensures
            match r {
                Some(v) => parse_version(cs@) == Some(v.deep_view()) && v.wf(),
                None => parse_version(cs@) is None,
            },
    {
        let s = cs;
        let n = s.len();
        let d1 = p_digits_end(s, 0);
        proof {
            lemma_digits_end(s@, 0);
        }
        if d1 >= n || d1 == 0 {
            return None;
        }
        let d2 = p_digits_end(s, d1 + 1);
        let d3 = if d2 < n {
            p_digits_end(s, d2 + 1)
        } else {
            d2
        };
        proof {
            lemma_digits_end(s@, d1 + 1);
            if d2 < n {
                lemma_digits_end(s@, d2 + 1);
            }
        }
        if !(s[d1] == '.' && d2 < n && d2 > d1 + 1 - 1 && s[d2] == '.') {
            return None;
        }
        if d2 == d1 + 1 || d3 == d2 + 1 {
            return None;
        }
        let major = match parse_u64_digits(s.as_slice(), 0, d1) {
            Some(x) => x,
            None => {
                return None;
            },
        };
        let minor = match parse_u64_digits(s.as_slice(), d1 + 1, d2) {
            Some(x) => x,
            None => {
                return None;
            },
        };
        let patch = match parse_u64_digits(s.as_slice(), d2 + 1, d3) {
            Some(x) => x,
            None => {
                return None;
            },
        };
        if s[0] == '0' && d1 != 1 {
            return None;
        }
        if s[d1 + 1] == '0' && d3 > 0 && d2 != d1 + 2 {
            return None;
        }
        if s[d2 + 1] == '0' && d3 != d2 + 2 {
            return None;
        }
        proof {
            assert(num_field_wf(s@, 0, d1 as int));
            assert(num_field_wf(s@, d1 + 1, d2 as int));
            assert(num_field_wf(s@, d2 + 1, d3 as int));
        }
        if d3 == n {
            let v = Version {
                major,
                minor,
                patch,
                pre: String::new(),
                build: String::new(),
            };
            proof {
                assert(v.deep_view() =~= VersionV {
                    major,
                    minor,
                    patch,
                    pre: Seq::empty(),
                    build: Seq::empty(),
                });
            }
            return Some(v);
        }
        let c3 = s[d3];
        if c3 == '-' {
            let pp = Self::find_plus(s, d3 + 1);
            proof {
                lemma_plus_end(s@, d3 + 1);
            }
            let pre_cs = crate::json::sub_chars(s, d3 + 1, pp);
            if !Self::check_idents(&pre_cs, true) {
                return None;
            }
            let pre = chars_to_string(&pre_cs);
            if pp == n {
                let v = Version { major, minor, patch, pre, build: String::new() };
                proof {
                    assert(v.deep_view() =~= VersionV {
                        major,
                        minor,
                        patch,
                        pre: s@.subrange(d3 + 1, pp as int),
                        build: Seq::empty(),
                    });
                }
                return Some(v);
            }
            let build_cs = crate::json::sub_chars(s, pp + 1, n);
            if !Self::check_idents(&build_cs, false) {
                return None;
            }
            let build = chars_to_string(&build_cs);
            let v = Version { major, minor, patch, pre, build };
            proof {
                assert(v.deep_view() =~= VersionV {
                    major,
                    minor,
                    patch,
                    pre: s@.subrange(d3 + 1, pp as int),
                    build: s@.subrange(pp + 1, n as int),
                });
            }
            return Some(v);
        }
        if c3 == '+' {
            let build_cs = crate::json::sub_chars(s, d3 + 1, n);
            if !Self::check_idents(&build_cs, false) {
                return None;
            }
            let build = chars_to_string(&build_cs);
            let v = Version { major, minor, patch, pre: String::new(), build };
            proof {
                assert(v.deep_view() =~= VersionV {
                    major,
                    minor,
                    patch,
                    pre: Seq::empty(),
                    build: s@.subrange(d3 + 1, n as int),
                });
            }
            return Some(v);
        }
        None
    }

    /// The first index at or after `i` that holds `+`, or the length.
    fn find_plus(s: &Vec<char>, i: usize) -> (r: usize)
        requires
            i <= s@.len(),
        ensures
            r == plus_end(s@, i as int),
            i <= r <= s@.len(),
    {
        proof {
            lemma_plus_end(s@, i as int);
        }
        let ghost end = plus_end(s@, i as int);
        let mut cur: usize = i;
        #[verifier::loop_isolation(false)]
        while cur < s.len() && s[cur] != '+'
            invariant
                i <= cur <= end <= s@.len(),
            decreases s@.len() - cur,
        {
            proof {
                if cur == end {
                    assert(s@[end as int] == '+');
                }
            }
            cur = cur + 1;
        }
        proof {
            if cur < end {
                assert(s@[cur as int] != '+');
            }
        }
        cur
    }

    /// Decides [`idents_wf`] for a whole character sequence.
    #[verifier::loop_isolation(false)]
    #[verifier::rlimit(100)]
    fn check_idents(s: &Vec<char>, numeric: bool) -> (r: bool)
        ensures
            r == (s@.len() > 0 && idents_wf(s@, 0, numeric)),
    {
        if s.len() == 0 {
            return false;
        }
        let mut i: usize = 0;
        loop
            invariant
                0 <= i < s@.len(),
                idents_wf(s@, 0, numeric) == idents_wf(s@, i as int, numeric),
            decreases s@.len() - i,
        {
            proof {
                lemma_ident_end(s@, i as int);
            }
            let e = Self::ident_scan(s, i);
            if e == i {
                proof {
                    assert(!idents_wf(s@, i as int, numeric));
                }
                return false;
            }
            let ghost part = s@.subrange(i as int, e as int);
            // the identifier's characters are identifier characters
            proof {
                assert forall|x: int| 0 <= x < part.len() implies is_ident_char(
                    #[trigger] part[x],
                ) by {
                    assert(part[x] == s@[i + x]);
                }
                assert(part.len() > 0);
            }
            if numeric {
                // a numeric identifier must not have a leading zero
                let mut all_dig = true;
                let mut x = i;
                while x < e
                    invariant
                        i <= x <= e,
                        all_dig == all_digits(s@.subrange(i as int, x as int)),
                    decreases e - x,
                {
                    let c = s[x];
                    let u = c as u32;
                    let d = 48 <= u && u <= 57;
                    proof {
                        assert(s@.subrange(i as int, x + 1).drop_last() =~= s@.subrange(
                            i as int,
                            x as int,
                        ));
                        assert(s@.subrange(i as int, x + 1).last() == s@[x as int]);
                        if !d {
                            assert(!is_digit(s@.subrange(i as int, x + 1).last()));
                        }
                        if all_dig && d {
                            assert forall|y: int| 0 <= y < s@.subrange(i as int, x + 1).len()
                                implies is_digit(#[trigger] s@.subrange(i as int, x + 1)[y]) by {
                                if y < x - i {
                                    assert(s@.subrange(i as int, x + 1)[y] == s@.subrange(
                                        i as int,
                                        x as int,
                                    )[y]);
                                }
                            }
                        } else {
                            if !all_dig {
                                let ghost w = choose|y: int| 0 <= y < x - i && !is_digit(
                                    #[trigger] s@.subrange(i as int, x as int)[y],
                                );
                                assert(!is_digit(s@.subrange(i as int, x + 1)[w]));
                            }
                        }
                    }
                    all_dig = all_dig && d;
                    x = x + 1;
                }
                proof {
                    assert(s@.subrange(i as int, e as int) == part);
                }
                if all_dig && e - i > 1 && s[i] == '0' {
                    proof {
                        assert(part[0] == s@[i as int]);
                        assert(!pre_ident_wf(part));
                        assert(!idents_wf(s@, i as int, numeric));
                    }
                    return false;
                }
                proof {
                    assert(part[0] == s@[i as int]);
                    assert(pre_ident_wf(part));
                }
            } else {
                proof {
                    assert(build_ident_wf(part));
                }
            }
            if e == s.len() {
                proof {
                    assert(idents_wf(s@, i as int, numeric));
                }
                return true;
            }
            if s[e] != '.' {
                proof {
                    assert(!idents_wf(s@, i as int, numeric));
                }
                return false;
            }
            if e + 1 >= s.len() {
                proof {
                    lemma_ident_end(s@, e + 1);
                    assert(ident_end(s@, e + 1) == e + 1);
                    assert(!idents_wf(s@, e + 1, numeric));
                    assert(!idents_wf(s@, i as int, numeric));
                }
                return false;
            }
            i = e + 1;
        }
    }

    /// The first index at or after `i` with no identifier character.
    #[verifier::loop_isolation(false)]
    fn ident_scan(s: &Vec<char>, i: usize) -> (r: usize)
        requires
            i <= s@.len(),
        ensures
            r == ident_end(s@, i as int),
            i <= r <= s@.len(),
    {
        proof {
            lemma_ident_end(s@, i as int);
        }
        let ghost end = ident_end(s@, i as int);
        let mut cur: usize = i;
        while cur < s.len() && Self::is_ident_char_exec(s[cur])
            invariant
                i <= cur <= end <= s@.len(),
            decreases s@.len() - cur,
        {
            proof {
                if cur == end {
                    assert(!is_ident_char(s@[end as int]));
                }
            }
            cur = cur + 1;
        }
        proof {
            if cur < end {
                assert(is_ident_char(s@[cur as int]));
            }
        }
        cur
    }

    /// The executable counterpart of [`is_ident_char`].
    fn is_ident_char_exec(c: char) -> (r: bool)
        ensures
            r == is_ident_char(c),
    {
        let u = c as u32;
        (48 <= u && u <= 57) || (97 <= u && u <= 122) || (65 <= u && u <= 90) || c == '-'
    }

    /// The text of this version.
    pub fn format(&self) -> (r: String)
        ensures
            r@ == version_chars(self.deep_view()),
    {
        let mut out: Vec<char> = Vec::new();
        push_u64_digits(self.major, &mut out);
        out.push('.');
        push_u64_digits(self.minor, &mut out);
        out.push('.');
        push_u64_digits(self.patch, &mut out);
        let pre_cs = str_to_chars(self.pre.as_str());
        if pre_cs.len() > 0 {
            out.push('-');
            let mut p = pre_cs;
            out.append(&mut p);
        }
        let build_cs = str_to_chars(self.build.as_str());
        if build_cs.len() > 0 {
            out.push('+');
            let mut b = build_cs;
            out.append(&mut b);
        }
        proof {
            assert(out@ =~= version_chars(self.deep_view()));
        }
        chars_to_string(&out)
    }

    /// Whether this plugin understands this spec version.
    pub fn is_compatible(&self) -> (r: bool)
        ensures
            r == compatible(self.deep_view()),
    {
        self.pre.as_str().unicode_len() == 0 && ((self.major == 0 && self.minor == 4 && self.patch
            == 0) || self.major == 1)
    }

    /// A fresh copy of this version.
    pub fn copied(&self) -> (r: Version)
        ensures
            r.deep_view() == self.deep_view(),
    {
        Version {
            major: self.major,
            minor: self.minor,
            patch: self.patch,
            pre: self.pre.clone(),
            build: self.build.clone(),
        }
    }

    /// The given numeric release, with no pre-release tag and no build
    /// metadata.
    pub fn numeric(major: u64, minor: u64, patch: u64) -> (r: Version)
        ensures
            r.deep_view() == (VersionV {
                major,
                minor,
                patch,
                pre: Seq::<char>::empty(),
                build: Seq::<char>::empty(),
            }),
            r.wf(),
    {
        let v = Version { major, minor, patch, pre: String::new(), build: String::new() };
        proof {
            assert(v.deep_view() =~= VersionV {
                major,
                minor,
                patch,
                pre: Seq::<char>::empty(),
                build: Seq::<char>::empty(),
            });
        }
        v
    }

    /// Whether two versions are the same, build metadata included.
    pub fn same(&self, other: &Version) -> (r: bool)
        ensures
            r == (self.deep_view() == other.deep_view()),
    {
        let r = self.major == other.major && self.minor == other.minor && self.patch
            == other.patch && crate::json::str_eq(self.pre.as_str(), other.pre.as_str())
            && crate::json::str_eq(self.build.as_str(), other.build.as_str());
        proof {
            if r {
                assert(self.deep_view() =~= other.deep_view());
            }
        }
        r
    }
}


/// Printing a parsed version yields the text it was parsed from: the
/// grammar admits no two spellings of one version.
#[verifier::rlimit(100)]
pub proof fn lemma_version_text_round_trip(s: Seq<char>)
    requires
        parse_version(s) is Some,
    ensures
        version_chars(parse_version(s).unwrap()) == s,
{
    let t = parse_version(s).unwrap();
    let d1 = digits_end(s, 0);
    let d2 = digits_end(s, d1 + 1);
    let d3 = digits_end(s, d2 + 1);
    lemma_digits_end(s, 0);
    lemma_digits_end(s, d1 + 1);
    lemma_digits_end(s, d2 + 1);
    let s1 = s.subrange(0, d1);
    let s2 = s.subrange(d1 + 1, d2);
    let s3 = s.subrange(d2 + 1, d3);
    assert forall|x: int| 0 <= x < s1.len() implies is_digit(#[trigger] s1[x]) by {
        assert(s1[x] == s[x]);
    }
    assert forall|x: int| 0 <= x < s2.len() implies is_digit(#[trigger] s2[x]) by {
        assert(s2[x] == s[d1 + 1 + x]);
    }
    assert forall|x: int| 0 <= x < s3.len() implies is_digit(#[trigger] s3[x]) by {
        assert(s3[x] == s[d2 + 1 + x]);
    }
    assert(s1.len() > 1 ==> s1[0] != '0') by {
        assert(s1[0] == s[0]);
    }
    assert(s2.len() > 1 ==> s2[0] != '0') by {
        assert(s2[0] == s[d1 + 1]);
    }
    assert(s3.len() > 1 ==> s3[0] != '0') by {
        assert(s3[0] == s[d2 + 1]);
    }
    crate::text::lemma_dec_chars_of_val(s1);
    crate::text::lemma_dec_chars_of_val(s2);
    crate::text::lemma_dec_chars_of_val(s3);
    assert(dec_chars(t.major as nat) == s1);
    assert(dec_chars(t.minor as nat) == s2);
    assert(dec_chars(t.patch as nat) == s3);
    if d3 == s.len() {
        assert(t.pre =~= Seq::<char>::empty());
        assert(t.build =~= Seq::<char>::empty());
        assert(version_chars(t) =~= s);
    } else if s[d3] == '-' {
        lemma_plus_end(s, d3 + 1);
        let pp = plus_end(s, d3 + 1);
        let pre = s.subrange(d3 + 1, pp);
        assert(pre.len() > 0) by {
            lemma_ident_end(pre, 0);
        }
        if pp == s.len() {
            assert(t.pre == pre && t.build =~= Seq::<char>::empty());
            assert(version_chars(t) =~= s);
        } else {
            let build = s.subrange(pp + 1, s.len() as int);
            assert(build.len() > 0) by {
                lemma_ident_end(build, 0);
            }
            assert(t.pre == pre && t.build == build);
            assert(s[pp] == '+');
            assert(version_chars(t) =~= s);
        }
    } else {
        assert(s[d3] == '+');
        let build = s.subrange(d3 + 1, s.len() as int);
        assert(build.len() > 0) by {
            lemma_ident_end(build, 0);
        }
        assert(t.pre =~= Seq::<char>::empty());
        assert(t.build == build);
        assert(version_chars(t) =~= s);
    }
}

} // verus!
