//! Font metadata extraction: a pure mapping from a file name and its path to
//! a structured font descriptor, by lexical parsing of the file name alone.
//! No file contents are ever inspected.

use vstd::prelude::*;
use vstd::string::StrSliceExecFns;
use vstd::string::StringExecFns;

verus! {

/// Mathematical model of a font descriptor: each text field as a sequence of
/// characters.
pub ghost struct FontMeta {
    pub name: Seq<char>,
    pub path: Seq<char>,
    pub family: Seq<char>,
    pub style: Seq<char>,
}

/// A font descriptor derived from a file name: `name` is the file name
/// without its final extension segment, `family` the part of `name` before
/// the first `-`, and `style` the part after it (or `Regular` if there is
/// no `-`).
pub struct FontInfo {
    pub name: String,
    pub path: String,
    pub family: String,
    pub style: String,
}

impl View for FontInfo {
    type V = FontMeta;

    open spec fn view(&self) -> FontMeta {
        FontMeta {
            name: self.name@,
            path: self.path@,
            family: self.family@,
            style: self.style@,
        }
    }
}

impl FontInfo {
    /// An independent copy whose model equals this descriptor's.
    pub fn duplicate(&self) -> (r: FontInfo)
        ensures
            r@ == self@,
    {
        FontInfo {
            name: self.name.clone(),
            path: self.path.clone(),
            family: self.family.clone(),
            style: self.style.clone(),
        }
    }
}

/// Index of the first occurrence of `c` in `s`, or `-1` if absent.
pub open spec fn find_first(s: Seq<char>, c: char) -> int
    decreases s.len(),
{
    if s.len() == 0 {
        -1
    } else if s[0] == c {
        0
    } else if find_first(s.skip(1), c) == -1 {
        -1
    } else {
        find_first(s.skip(1), c) + 1
    }
}

/// Index of the last occurrence of `c` in `s`, or `-1` if absent.
pub open spec fn find_last(s: Seq<char>, c: char) -> int
    decreases s.len(),
{
    if s.len() == 0 {
        -1
    } else if s[s.len() - 1] == c {
        s.len() - 1
    } else {
        find_last(s.drop_last(), c)
    }
}

/// `find_first` returns the least index holding `c`, or `-1` when `c` is
/// absent.
pub proof fn lemma_find_first_props(s: Seq<char>, c: char)
    ensures
        find_first(s, c) >= -1,
        (find_first(s, c) == -1 <==> forall|j: int| 0 <= j < s.len() ==> s[j] != c),
        find_first(s, c) >= 0 ==> find_first(s, c) < s.len() && s[find_first(s, c)] == c
            && forall|j: int| 0 <= j < find_first(s, c) ==> s[j] != c,
    decreases s.len(),
{
    if s.len() == 0 {
    } else if s[0] == c {
    } else {
        lemma_find_first_props(s.skip(1), c);
        let t = s.skip(1);
        let r = find_first(t, c);
        assert(forall|j: int| 0 <= j < t.len() ==> t[j] == s[j + 1]);
        if r == -1 {
            assert(find_first(s, c) == -1);
            assert forall|j: int| 0 <= j < s.len() implies s[j] != c by {
                if j > 0 {
                    assert(t[j - 1] == s[j]);
                    assert(t[j - 1] != c);
                }
            }
        } else {
            assert(find_first(s, c) == r + 1);
            assert(s[r + 1] == t[r]);
            assert forall|j: int| 0 <= j < r + 1 implies s[j] != c by {
                if j > 0 {
                    assert(t[j - 1] == s[j]);
                    assert(t[j - 1] != c);
                }
            }
        }
    }
}

/// `find_last` returns the greatest index holding `c`, or `-1` when `c` is
/// absent.
pub proof fn lemma_find_last_props(s: Seq<char>, c: char)
    ensures
        find_last(s, c) >= -1,
        (find_last(s, c) == -1 <==> forall|j: int| 0 <= j < s.len() ==> s[j] != c),
        find_last(s, c) >= 0 ==> find_last(s, c) < s.len() && s[find_last(s, c)] == c
            && forall|j: int| find_last(s, c) < j < s.len() ==> s[j] != c,
    decreases s.len(),
{
    if s.len() == 0 {
    } else if s[s.len() - 1] == c {
    } else {
        lemma_find_last_props(s.drop_last(), c);
        assert(forall|j: int| 0 <= j < s.len() - 1 ==> s.drop_last()[j] == s[j]);
        let k = find_last(s, c);
        if k >= 0 {
            assert(s[k] == s.drop_last()[k]);
            assert forall|j: int| k < j < s.len() implies s[j] != c by {
                if j < s.len() - 1 {
                    assert(s.drop_last()[j] == s[j]);
                }
            }
        }
    }
}

/// The extension of a file name: the part after the last `.`, provided that
/// dot is neither absent nor the leading character (a name that starts with
/// its only dot has no extension).
pub open spec fn spec_ext(file: Seq<char>) -> Option<Seq<char>> {
    let k = find_last(file, '.');
    if k <= 0 {
        Option::None
    } else {
        Option::Some(file.skip(k + 1))
    }
}

/// The file name without its final extension segment; the whole name when it
/// has no extension.
pub open spec fn spec_base(file: Seq<char>) -> Seq<char> {
    let k = find_last(file, '.');
    if k <= 0 {
        file
    } else {
        file.take(k)
    }
}

/// The accepted font file extensions, matched case-sensitively.
pub open spec fn allowed_ext(e: Seq<char>) -> bool {
    ||| e == seq!['t', 't', 'f']
    ||| e == seq!['o', 't', 'f']
    ||| e == seq!['t', 't', 'c']
    ||| e == seq!['w', 'o', 'f', 'f']
    ||| e == seq!['w', 'o', 'f', 'f', '2']
}

/// A directory entry qualifies as a font file exactly when its extension is
/// on the allow-list.
pub open spec fn qualifies(file: Seq<char>) -> bool {
    match spec_ext(file) {
        Option::Some(e) => allowed_ext(e),
        Option::None => false,
    }
}

/// The default style recorded when a name carries no `-` separator.
pub open spec fn regular_style() -> Seq<char> {
    seq!['R', 'e', 'g', 'u', 'l', 'a', 'r']
}

/// The family component: the part of `name` before the first `-`, or the
/// whole name when there is none.
pub open spec fn spec_family(name: Seq<char>) -> Seq<char> {
    let d = find_first(name, '-');
    if d == -1 {
        name
    } else {
        name.take(d)
    }
}

/// The style component: the part of `name` after the first `-`, or
/// `Regular` when there is none.
pub open spec fn spec_style(name: Seq<char>) -> Seq<char> {
    let d = find_first(name, '-');
    if d == -1 {
        regular_style()
    } else {
        name.skip(d + 1)
    }
}

/// The descriptor a qualifying file yields.
pub open spec fn font_of(file: Seq<char>, path: Seq<char>) -> FontMeta {
    FontMeta {
        name: spec_base(file),
        path: path,
        family: spec_family(spec_base(file)),
        style: spec_style(spec_base(file)),
    }
}

proof fn lemma_allowed_ext_chars(e: Seq<char>)
    requires
        allowed_ext(e),
    ensures
        !e.contains('.'),
        e.len() >= 3,
{
    assert forall|i: int| 0 <= i < e.len() implies e[i] != '.' by {
        if e == seq!['t', 't', 'f'] {
            assert(e[0] == 't' && e[1] == 't' && e[2] == 'f');
        } else if e == seq!['o', 't', 'f'] {
            assert(e[0] == 'o' && e[1] == 't' && e[2] == 'f');
        } else if e == seq!['t', 't', 'c'] {
            assert(e[0] == 't' && e[1] == 't' && e[2] == 'c');
        } else if e == seq!['w', 'o', 'f', 'f'] {
            assert(e[0] == 'w' && e[1] == 'o' && e[2] == 'f' && e[3] == 'f');
        } else {
            assert(e[0] == 'w' && e[1] == 'o' && e[2] == 'f' && e[3] == 'f' && e[4] == '2');
        }
    }
}

/// A file named `family-style.ext`, with a `-`-free family and an allowed
/// extension, qualifies and yields exactly that family and style.
pub proof fn lemma_dashed_name(family: Seq<char>, style: Seq<char>, ext: Seq<char>)
    requires
        !family.contains('-'),
        !family.contains('.'),
        !style.contains('.'),
        allowed_ext(ext),
    ensures
        ({
            let file = family + seq!['-'] + style + seq!['.'] + ext;
            &&& qualifies(file)
            &&& spec_base(file) == family + seq!['-'] + style
            &&& spec_family(spec_base(file)) == family
            &&& spec_style(spec_base(file)) == style
        }),
{
    lemma_allowed_ext_chars(ext);
    let name = family + seq!['-'] + style;
    let file = family + seq!['-'] + style + seq!['.'] + ext;
    let f = family.len() as int;
    let k = f + 1 + style.len() as int;
    assert(file.len() == k + 1 + ext.len());
    assert(file[k] == '.');
    assert(forall|j: int| 0 <= j < k ==> file[j] == name[j]);
    assert(forall|j: int| k < j < file.len() ==> file[j] == ext[j - k - 1]);
    assert(forall|j: int| 0 <= j < f ==> name[j] == family[j]);
    assert(name[f] == '-');
    assert(forall|j: int| f < j < name.len() ==> name[j] == style[j - f - 1]);
    lemma_find_last_props(file, '.');
    let k0 = find_last(file, '.');
    if k0 == -1 {
        assert(false);
    } else if k0 < k {
        assert(file[k] != '.');
        assert(false);
    } else if k0 > k {
        if k0 < k + 1 + ext.len() {
            assert(ext[k0 - k - 1] != '.');
        }
        assert(false);
    }
    assert(file.take(k) =~= name);
    assert(file.skip(k + 1) =~= ext);
    lemma_find_first_props(name, '-');
    let d0 = find_first(name, '-');
    if d0 == -1 {
        assert(false);
    } else if d0 < f {
        assert(family[d0] != '-');
        assert(false);
    } else if d0 > f {
        assert(name[f] != '-');
        assert(false);
    }
    assert(name.take(f) =~= family);
    assert(name.skip(f + 1) =~= style);
}

/// A file named `family.ext`, with a `-`-free non-empty family and an
/// allowed extension, qualifies and yields that family with the default
/// `Regular` style.
pub proof fn lemma_undashed_name(family: Seq<char>, ext: Seq<char>)
    requires
        family.len() > 0,
        !family.contains('-'),
        !family.contains('.'),
        allowed_ext(ext),
    ensures
        ({
            let file = family + seq!['.'] + ext;
            &&& qualifies(file)
            &&& spec_base(file) == family
            &&& spec_family(spec_base(file)) == family
            &&& spec_style(spec_base(file)) == regular_style()
        }),
{
    lemma_allowed_ext_chars(ext);
    let file = family + seq!['.'] + ext;
    let k = family.len() as int;
    assert(file.len() == k + 1 + ext.len());
    assert(file[k] == '.');
    assert(forall|j: int| 0 <= j < k ==> file[j] == family[j]);
    assert(forall|j: int| k < j < file.len() ==> file[j] == ext[j - k - 1]);
    lemma_find_last_props(file, '.');
    let k0 = find_last(file, '.');
    if k0 == -1 {
        assert(false);
    } else if k0 < k {
        assert(file[k] != '.');
        assert(false);
    } else if k0 > k {
        if k0 < k + 1 + ext.len() {
            assert(ext[k0 - k - 1] != '.');
        }
        assert(false);
    }
    assert(file.take(k) =~= family);
    assert(file.skip(k + 1) =~= ext);
    lemma_find_first_props(family, '-');
    let d0 = find_first(family, '-');
    if d0 >= 0 {
        assert(family[d0] != '-');
        assert(false);
    }
}

/// Character-wise string equality.
fn str_eq(a: &str, b: &str) -> (r: bool)
    ensures
        r == (a@ == b@),
{
    let n = a.unicode_len();
    let m = b.unicode_len();
    if n != m {
        return false;
    }
    let mut i: usize = 0;
    while i < n
        invariant
            i <= n,
            n == a@.len(),
            n == b@.len(),
            forall|j: int| 0 <= j < i ==> a@[j] == b@[j],
        decreases n - i,
    {
        if a.get_char(i) != b.get_char(i) {
            assert(a@[i as int] != b@[i as int]);
            return false;
        }
        i += 1;
    }
    proof {
        assert(a@ =~= b@);
    }
    true
}

/// First index of `c` in `s`, if any.
pub(crate) fn find_first_char(s: &str, c: char) -> (r: Option<usize>)
    ensures
        match r {
            Option::Some(i) => find_first(s@, c) == i as int,
            Option::None => find_first(s@, c) == -1,
        },
{
    let n = s.unicode_len();
    let mut i: usize = 0;
    while i < n
        invariant
            i <= n,
            n == s@.len(),
            forall|j: int| 0 <= j < i ==> s@[j] != c,
        decreases n - i,
    {
        if s.get_char(i) == c {
            proof {
                lemma_find_first_props(s@, c);
                let k = find_first(s@, c);
                if k > i as int {
                    assert(s@[i as int] != c);
                } else if 0 <= k < i as int {
                    assert(s@[k] != c);
                }
            }
            return Some(i);
        }
        i += 1;
    }
    proof {
        lemma_find_first_props(s@, c);
    }
    None
}

/// Last index of `c` in `s`, if any.
fn find_last_char(s: &str, c: char) -> (r: Option<usize>)
    ensures
        match r {
            Option::Some(i) => find_last(s@, c) == i as int,
            Option::None => find_last(s@, c) == -1,
        },
{
    let n = s.unicode_len();
    let mut i: usize = n;
    while i > 0
        invariant
            i <= n,
            n == s@.len(),
            forall|j: int| i <= j < n ==> s@[j] != c,
        decreases i,
    {
        i -= 1;
        if s.get_char(i) == c {
            proof {
                lemma_find_last_props(s@, c);
                let k = find_last(s@, c);
                if k > i as int {
                    assert(s@[k] != c);
                } else if 0 <= k < i as int {
                    assert(s@[i as int] != c);
                }
            }
            return Some(i);
        }
    }
    proof {
        lemma_find_last_props(s@, c);
    }
    None
}

/// Whether `e` is one of the accepted font extensions.
fn is_allowed_ext(e: &str) -> (r: bool)
    ensures
        r == allowed_ext(e@),
{
    proof {
        reveal_strlit("ttf");
        reveal_strlit("otf");
        reveal_strlit("ttc");
        reveal_strlit("woff");
        reveal_strlit("woff2");
        assert("ttf"@ =~= seq!['t', 't', 'f']);
        assert("otf"@ =~= seq!['o', 't', 'f']);
        assert("ttc"@ =~= seq!['t', 't', 'c']);
        assert("woff"@ =~= seq!['w', 'o', 'f', 'f']);
        assert("woff2"@ =~= seq!['w', 'o', 'f', 'f', '2']);
    }
    str_eq(e, "ttf") || str_eq(e, "otf") || str_eq(e, "ttc") || str_eq(e, "woff") || str_eq(
        e,
        "woff2",
    )
}

/// Extract a font descriptor from a directory entry's file name and full
/// path. Returns a descriptor exactly when the file name's extension is on
/// the allow-list; every other entry is filtered out, not an error.
pub fn extract_font(file_name: &str, path: &str) -> (r: Option<FontInfo>)
    ensures
        r is Some <==> qualifies(file_name@),
        r matches Some(f) ==> f@ == font_of(file_name@, path@),
{
    let n = file_name.unicode_len();
    let k_opt = find_last_char(file_name, '.');
    match k_opt {
        Option::None => None,
        Option::Some(k) => {
            if k == 0 {
                return None;
            }
            proof {
                lemma_find_last_props(file_name@, '.');
            }
            let ext = file_name.substring_char(k + 1, n);
            assert(ext@ == file_name@.skip(k + 1));
            if !is_allowed_ext(ext) {
                return None;
            }
            let name = String::from_str(file_name.substring_char(0, k));
            assert(name@ == spec_base(file_name@)) by {
                assert(file_name@.subrange(0, k as int) =~= file_name@.take(k as int));
            }
            let m = name.as_str().unicode_len();
            let d_opt = find_first_char(name.as_str(), '-');
            let (family, style) = match d_opt {
                Option::None => {
                    let f = String::from_str(name.as_str());
                    let s = String::from_str("Regular");
                    proof {
                        reveal_strlit("Regular");
                        assert("Regular"@ =~= regular_style());
                    }
                    (f, s)
                },
                Option::Some(d) => {
                    proof {
                        lemma_find_first_props(name@, '-');
                    }
                    let f = String::from_str(name.as_str().substring_char(0, d));
                    let s = String::from_str(name.as_str().substring_char(d + 1, m));
                    assert(f@ =~= name@.take(d as int));
                    (f, s)
                },
            };
            Some(
                FontInfo {
                    name,
                    path: String::from_str(path),
                    family,
                    style,
                },
            )
        },
    }
}

} // verus!
