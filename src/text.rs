use vstd::prelude::*;
use vstd::string::*;

verus! {

/// Longest accepted user name, in characters.
pub const MAX_NAME_LEN: usize = 15;

/// `s` with leading and trailing whitespace removed, as `str::trim` gives it.
pub uninterp spec fn trim_of(s: Seq<char>) -> Seq<char>;

/// The whitespace-separated words of `s`, as `str::split_whitespace` gives them.
pub uninterp spec fn words_of(s: Seq<char>) -> Seq<Seq<char>>;

/// Whether `c` is alphanumeric, as `char::is_alphanumeric` decides it.
pub uninterp spec fn alnum(c: char) -> bool;

/// An ASCII letter or digit.
pub open spec fn ascii_alnum(c: char) -> bool {
    ('a' <= c <= 'z') || ('A' <= c <= 'Z') || ('0' <= c <= '9')
}

/// Relies on str::trim: the text without surrounding whitespace (Unicode
/// White_Space, which holds no ASCII letter or digit).
#[verifier::external_body]
pub(crate) fn trimmed(s: &String) -> (r: String)
    ensures
        r@ == trim_of(s@),
        s@.len() > 0 && ascii_alnum(s@[0]) && ascii_alnum(s@.last()) ==> r@ == s@,
{
    s.trim().to_string()
}

/// Relies on str::split_whitespace: the words of the text, in order.
#[verifier::external_body]
pub(crate) fn words(s: &String) -> (r: Vec<String>)
    ensures
        r@.map_values(|w: String| w@) == words_of(s@),
{
    s.split_whitespace().map(String::from).collect()
}

/// Relies on char::is_alphanumeric: alphabetic or numeric, which every
/// ASCII letter and digit is and a space is not.
#[verifier::external_body]
fn is_alnum(c: char) -> (r: bool)
    ensures
        r == alnum(c),
        ascii_alnum(c) ==> r,
        c == ' ' ==> !r,
{
    c.is_alphanumeric()
}

/// A user name is accepted when it is non-empty, at most `MAX_NAME_LEN`
/// characters long and alphanumeric throughout.
pub open spec fn valid_name(name: Seq<char>) -> bool {
    &&& 0 < name.len() <= MAX_NAME_LEN
    &&& forall|i: int| 0 <= i < name.len() ==> alnum(#[trigger] name[i])
}

/// A name of one to `MAX_NAME_LEN` ASCII letters and digits.
pub open spec fn plain_name(name: Seq<char>) -> bool {
    &&& 0 < name.len() <= MAX_NAME_LEN
    &&& forall|i: int| 0 <= i < name.len() ==> ascii_alnum(#[trigger] name[i])
}

/// Whether `name` may be used as a user name.
pub fn valid_username(name: &String) -> (r: bool)
    ensures
        r == valid_name(name@),
        plain_name(name@) ==> r,
{
    let s = name.as_str();
    let n = s.unicode_len();
    if n == 0 || n > MAX_NAME_LEN {
        return false;
    }
    let mut i: usize = 0;
    while i < n
        invariant
            n == s@.len(),
            s@ == name@,
            i <= n,
            forall|j: int| 0 <= j < i ==> alnum(#[trigger] s@[j]),
        decreases n - i,
    {
        if !is_alnum(s.get_char(i)) {
            return false;
        }
        i = i + 1;
    }
    true
}

/// Whether the text starts with `/`.
pub open spec fn is_command(s: Seq<char>) -> bool {
    s.len() > 0 && s[0] == '/'
}

/// Whether the text starts with `/`.
pub fn starts_with_slash(s: &String) -> (r: bool)
    ensures
        r == is_command(s@),
{
    let t = s.as_str();
    t.unicode_len() > 0 && t.get_char(0) == '/'
}

/// The words joined, with `sep` between each two.
pub open spec fn joined(ws: Seq<Seq<char>>, sep: Seq<char>) -> Seq<char>
    decreases ws.len(),
{
    if ws.len() == 0 {
        Seq::empty()
    } else if ws.len() == 1 {
        ws[0]
    } else {
        joined(ws.drop_last(), sep) + sep + ws.last()
    }
}

/// The words of `ws` from index `from` on, joined with `sep`.
pub fn join_from(ws: &Vec<String>, from: usize, sep: &str) -> (r: String)
    requires
        from <= ws@.len(),
    ensures
        r@ == joined(ws@.map_values(|w: String| w@).subrange(from as int, ws@.len() as int), sep@),
{
    let ghost views = ws@.map_values(|w: String| w@);
    let mut r = String::new();
    let mut i: usize = from;
    while i < ws.len()
        invariant
            from <= i <= ws@.len(),
            views == ws@.map_values(|w: String| w@),
            r@ == joined(views.subrange(from as int, i as int), sep@),
        decreases ws@.len() - i,
    {
        let ghost before = views.subrange(from as int, i as int);
        if i > from {
            r.append(sep);
        }
        r.append(ws[i].as_str());
        i = i + 1;
        proof {
            let after = views.subrange(from as int, i as int);
            assert(after.drop_last() =~= before);
            if before.len() == 0 {
                assert(after =~= seq![views[i - 1]]);
                assert(r@ =~= joined(after, sep@));
            }
        }
    }
    r
}

} // verus!
