//! The filename grammar of the store.
//!
//! A directory entry is a configuration file exactly when its name is the
//! literal prefix `.mozconfig-` immediately followed by a non-empty run of
//! non-whitespace characters; that run is the configuration's name.  The
//! bare name `.mozconfig` (the active pointer) never matches.  Whitespace
//! means the Unicode `White_Space` code points.

use vstd::prelude::*;

verus! {

/// The Unicode `White_Space` code points.
pub open spec fn is_space(c: char) -> bool {
    let u = c as u32;
    (9 <= u && u <= 13) || u == 0x20 || u == 0x85 || u == 0xA0 || u == 0x1680 || (0x2000 <= u
        && u <= 0x200A) || u == 0x2028 || u == 0x2029 || u == 0x202F || u == 0x205F || u == 0x3000
}

pub fn space_char(c: char) -> (r: bool)
    ensures
        r == is_space(c),
{
    let u = c as u32;
    (9 <= u && u <= 13) || u == 0x20 || u == 0x85 || u == 0xA0 || u == 0x1680 || (0x2000 <= u
        && u <= 0x200A) || u == 0x2028 || u == 0x2029 || u == 0x202F || u == 0x205F || u == 0x3000
}

/// No character of `s` is whitespace.
pub open spec fn plain(s: Seq<char>) -> bool {
    forall|i: int| 0 <= i < s.len() ==> !is_space(#[trigger] s[i])
}

/// A usable configuration name: non-empty and free of whitespace.
pub open spec fn valid_name(s: Seq<char>) -> bool {
    s.len() > 0 && plain(s)
}

/// The name of the active pointer entry.
pub open spec fn marker_name() -> Seq<char> {
    ".mozconfig"@
}

/// The prefix of every configuration file name.
pub open spec fn config_file_prefix() -> Seq<char> {
    ".mozconfig-"@
}

/// The configuration name encoded in a file name, if any: the file name
/// must be `.mozconfig-` followed by a non-empty whitespace-free run.
pub open spec fn spec_config_name(f: Seq<char>) -> Option<Seq<char>> {
    if f.len() > config_file_prefix().len() && f.take(config_file_prefix().len() as int)
        == config_file_prefix() && plain(f.skip(config_file_prefix().len() as int)) {
        Some(f.skip(config_file_prefix().len() as int))
    } else {
        None
    }
}

/// A valid name survives the trip through its file name.
pub proof fn lemma_config_name_round_trip(name: Seq<char>)
    requires
        valid_name(name),
    ensures
        spec_config_name(config_file_prefix() + name) == Some(name),
{
    let f = config_file_prefix() + name;
    assert(f.take(config_file_prefix().len() as int) =~= config_file_prefix());
    assert(f.skip(config_file_prefix().len() as int) =~= name);
}

/// Two file names encoding the same configuration name are equal.
pub proof fn lemma_config_name_injective(f: Seq<char>, name: Seq<char>)
    requires
        spec_config_name(f) == Some(name),
    ensures
        f == config_file_prefix() + name,
        valid_name(name),
{
    assert(f =~= config_file_prefix() + name);
}

/// Extracts the configuration name from a directory entry's name.
pub fn config_name_of(file_name: &str) -> (r: Option<String>)
    ensures
        r matches Some(name) ==> spec_config_name(file_name@) == Some(name@),
        r is None ==> spec_config_name(file_name@) is None,
{
    let prefix: &str = ".mozconfig-";
    proof {
        reveal_strlit(".mozconfig-");
    }
    let n = file_name.unicode_len();
    let plen = prefix.unicode_len();
    if n <= plen {
        return None;
    }
    let mut i: usize = 0;
    while i < plen
        invariant
            i <= plen,
            plen == config_file_prefix().len(),
            n == file_name@.len(),
            n > plen,
            prefix@ == config_file_prefix(),
            forall|j: int| 0 <= j < i ==> file_name@[j] == config_file_prefix()[j],
        decreases plen - i,
    {
        if file_name.get_char(i) != prefix.get_char(i) {
            proof {
                assert(file_name@.take(plen as int)[i as int] != config_file_prefix()[i as int]);
            }
            return None;
        }
        i += 1;
    }
    proof {
        assert(file_name@.take(plen as int) =~= config_file_prefix());
    }
    let mut j: usize = plen;
    while j < n
        invariant
            plen <= j <= n,
            plen == config_file_prefix().len(),
            n == file_name@.len(),
            forall|k: int| plen <= k < j ==> !is_space(#[trigger] file_name@[k]),
        decreases n - j,
    {
        if space_char(file_name.get_char(j)) {
            proof {
                assert(is_space(file_name@.skip(plen as int)[j - plen]));
            }
            return None;
        }
        j += 1;
    }
    let tail = file_name.substring_char(plen, n);
    proof {
        assert(tail@ =~= file_name@.skip(plen as int));
        assert(forall|k: int|
            0 <= k < tail@.len() ==> !is_space(#[trigger] file_name@.skip(plen as int)[k]));
    }
    Some(String::from_str(tail))
}

/// Builds the file name `.mozconfig-<name>` for a configuration name.
pub fn config_file_name(name: &str) -> (r: String)
    ensures
        r@ == config_file_prefix() + name@,
{
    let mut s = String::from_str(".mozconfig-");
    s.append(name);
    s
}

/// Builds the active pointer's name, `.mozconfig`.
pub fn marker_file_name() -> (r: String)
    ensures
        r@ == marker_name(),
{
    String::from_str(".mozconfig")
}

/// The body written into a fresh configuration file: a single
/// build-directory directive embedding the configuration's name.
pub open spec fn config_text_prefix() -> Seq<char> {
    "mk_add_options MOZ_OBJDIR=obj-"@
}

/// Builds the contents of a fresh configuration file for `name`.
pub fn config_file_text(name: &str) -> (r: String)
    ensures
        r@ == config_text_prefix() + name@,
{
    let mut s = String::from_str("mk_add_options MOZ_OBJDIR=obj-");
    s.append(name);
    s
}

/// Builds the confirmation line reported after a configuration is created.
pub fn creation_message(name: &str) -> (r: String)
    ensures
        r@ == "Configuration \""@ + name@ + "\" created."@,
{
    let mut s = String::from_str("Configuration \"");
    s.append(name);
    s.append("\" created.");
    s
}

} // verus!
