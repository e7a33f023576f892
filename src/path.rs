//! Resolution of GN target paths (`//dir/sub:name`) into a directory and a target name.
use vstd::prelude::*;
use crate::ascii::{COLON, SLASH};
use crate::bytes::{append_bytes, append_range, bytes_equal};
use crate::mangle::{mangle_crate_name, mangled_name};

verus! {

/// Why a GN path was refused.
#[derive(Clone, Copy, Debug, PartialEq, Eq, Structural)]
pub enum PathError {
    /// The path does not start with `//`.
    NotAbsolutePath,
    /// A directory segment is empty.
    EmptySegment,
    /// A `:` appears in a directory segment.
    UnexpectedColon,
    /// The path lies under `//third_party/rust`, whose crates are not imported this way.
    ProtectedNamespace,
    /// The target name is not an identifier.
    InvalidTargetName,
}

/// A validated GN target: its directory segments and its target name.
pub ghost struct TargetPath {
    pub directory_segments: Seq<Seq<u8>>,
    pub target_name: Seq<u8>,
}

/// The segments of `s[0..n]` split on `/`; the last one may still grow.
pub open spec fn split_prefix(s: Seq<u8>, n: nat) -> Seq<Seq<u8>>
    decreases n,
{
    if n == 0 || n > s.len() {
        seq![Seq::empty()]
    } else {
        let p = split_prefix(s, (n - 1) as nat);
        if s[n - 1] == SLASH {
            p.push(Seq::empty())
        } else {
            p.update(p.len() - 1, p.last().push(s[n - 1]))
        }
    }
}

/// `s` split on `/`: always at least one segment.
pub open spec fn split_segments(s: Seq<u8>) -> Seq<Seq<u8>> {
    split_prefix(s, s.len())
}

/// `c` is the position of the first `:` in `seg`.
pub open spec fn is_first_colon(seg: Seq<u8>, c: int) -> bool {
    &&& 0 <= c < seg.len()
    &&& seg[c] == COLON
    &&& forall|j: int| 0 <= j < c ==> seg[j] != COLON
}

/// The last segment of a path split at its first `:` into the final directory
/// segment and the target name; without a `:` the segment is both.
pub open spec fn split_last_segment(seg: Seq<u8>) -> (Seq<u8>, Seq<u8>) {
    if seg.contains(COLON) {
        let c = choose|c: int| is_first_colon(seg, c);
        (seg.take(c), seg.skip(c + 1))
    } else {
        (seg, seg)
    }
}

/// The error of the first bad directory segment, if there is one.
pub open spec fn segment_error(segs: Seq<Seq<u8>>) -> Option<PathError>
    decreases segs.len(),
{
    if segs.len() == 0 {
        None
    } else if segs[0].contains(COLON) {
        Some(PathError::UnexpectedColon)
    } else if segs[0].len() == 0 {
        Some(PathError::EmptySegment)
    } else {
        segment_error(segs.drop_first())
    }
}

/// `third_party`
pub open spec fn third_party() -> Seq<u8> {
    seq![116u8, 104, 105, 114, 100, 95, 112, 97, 114, 116, 121]
}

/// `rust`
pub open spec fn rust() -> Seq<u8> {
    seq![114u8, 117, 115, 116]
}

/// The directory lies in the vendored namespace `//third_party/rust`.
pub open spec fn is_protected(segs: Seq<Seq<u8>>) -> bool {
    segs.len() >= 2 && segs[0] == third_party() && segs[1] == rust()
}

/// Whether the text, read as UTF-8, is exactly one Rust identifier that
/// is not a keyword or `_`.
pub uninterp spec fn is_rust_identifier(s: Seq<u8>) -> bool;

/// Relies on `syn::parse_str::<syn::Ident>`: it accepts the text, read as
/// UTF-8 with invalid sequences replaced, when it is one identifier token that
/// is not a keyword or `_`; the empty text is none.
#[verifier::external_body]
pub(crate) fn parses_as_identifier(s: &[u8]) -> (r: bool)
    ensures
        r == is_rust_identifier(s@),
        s@.len() == 0 ==> !r,
{
    syn::parse_str::<syn::Ident>(&String::from_utf8_lossy(s)).is_ok()
}

/// The path starts with `//`.
pub open spec fn is_absolute(s: Seq<u8>) -> bool {
    s.len() >= 2 && s[0] == SLASH && s[1] == SLASH
}

/// The segments of an absolute path after `//`, split on `/`.
pub open spec fn raw_segments(s: Seq<u8>) -> Seq<Seq<u8>> {
    split_segments(s.skip(2))
}

/// The directory segments: the raw segments with the last one cut at its first `:`.
pub open spec fn directory_segments(s: Seq<u8>) -> Seq<Seq<u8>> {
    let raw = raw_segments(s);
    raw.drop_last().push(split_last_segment(raw.last()).0)
}

/// The target name: what follows the first `:` of the last segment, or the
/// whole last segment.
pub open spec fn target_name_of(s: Seq<u8>) -> Seq<u8> {
    split_last_segment(raw_segments(s).last()).1
}

/// A segment that may stand in a directory: non-empty and without `:`.
pub open spec fn is_good_segment(seg: Seq<u8>) -> bool {
    seg.len() > 0 && !seg.contains(COLON)
}

/// Resolves a raw GN path into its directory segments and target name.
pub open spec fn resolve(s: Seq<u8>) -> Result<TargetPath, PathError> {
    if !is_absolute(s) {
        Err(PathError::NotAbsolutePath)
    } else {
        let dir = directory_segments(s);
        let name = target_name_of(s);
        match segment_error(dir) {
            Some(e) => Err(e),
            None => if is_protected(dir) {
                Err(PathError::ProtectedNamespace)
            } else if !is_rust_identifier(name) {
                Err(PathError::InvalidTargetName)
            } else {
                Ok(TargetPath { directory_segments: dir, target_name: name })
            },
        }
    }
}

proof fn lemma_segment_error_skip(segs: Seq<Seq<u8>>, k: int)
    requires
        0 <= k <= segs.len(),
        forall|j: int| 0 <= j < k ==> is_good_segment(#[trigger] segs[j]),
    ensures
        segment_error(segs) == segment_error(segs.skip(k)),
    decreases k,
{
    if k > 0 {
        lemma_segment_error_skip(segs.drop_first(), k - 1);
        assert(segs.drop_first().skip(k - 1) =~= segs.skip(k));
        assert(is_good_segment(segs[0]));
    } else {
        assert(segs.skip(0) =~= segs);
    }
}

/// A path with a `:` in a segment before the last one is refused with
/// `UnexpectedColon`, when no earlier segment is refused first.
pub proof fn colon_before_last_segment_is_rejected(s: Seq<u8>, k: int)
    requires
        is_absolute(s),
        0 <= k < raw_segments(s).len() - 1,
        raw_segments(s)[k].contains(COLON),
        forall|j: int| 0 <= j < k ==> is_good_segment(#[trigger] raw_segments(s)[j]),
    ensures
        resolve(s) == Err::<TargetPath, PathError>(PathError::UnexpectedColon),
{
    let raw = raw_segments(s);
    let dir = directory_segments(s);
    assert forall|j: int| 0 <= j < k implies is_good_segment(#[trigger] dir[j]) by {
        assert(dir[j] == raw[j]);
    }
    lemma_segment_error_skip(dir, k);
    assert(dir.skip(k)[0] == raw[k]);
}

/// A path in `//third_party/rust` whose directory segments are otherwise
/// valid is refused with `ProtectedNamespace`, whatever its target name.
pub proof fn vendored_namespace_is_rejected(s: Seq<u8>)
    requires
        is_absolute(s),
        forall|j: int| 0 <= j < directory_segments(s).len() ==> is_good_segment(#[trigger] directory_segments(s)[j]),
        is_protected(directory_segments(s)),
    ensures
        resolve(s) == Err::<TargetPath, PathError>(PathError::ProtectedNamespace),
{
    let dir = directory_segments(s);
    lemma_segment_error_skip(dir, dir.len() as int);
}

/// When the last segment of a path has no `:`, a resolved path is named
/// after that segment, which is also its last directory segment.
pub proof fn target_without_colon_is_self_named(s: Seq<u8>)
    requires
        resolve(s) is Ok,
        !raw_segments(s).last().contains(COLON),
    ensures
        resolve(s)->Ok_0.target_name == raw_segments(s).last(),
        resolve(s)->Ok_0.directory_segments.last() == raw_segments(s).last(),
{
}

/// `segs` joined with `/`.
pub open spec fn join(segs: Seq<Seq<u8>>) -> Seq<u8>
    decreases segs.len(),
{
    if segs.len() == 0 {
        Seq::empty()
    } else if segs.len() == 1 {
        segs[0]
    } else {
        join(segs.drop_last()) + seq![SLASH] + segs.last()
    }
}

/// The canonical string of a directory: `//` and its segments joined with `/`.
pub open spec fn canonical_directory(segs: Seq<Seq<u8>>) -> Seq<u8> {
    seq![SLASH, SLASH] + join(segs)
}

pub open spec fn segment_views(v: Seq<Vec<u8>>) -> Seq<Seq<u8>> {
    v.map_values(|x: Vec<u8>| x@)
}

/// Splits `s[start..]` on `/`.
fn split_on_slash(s: &[u8], start: usize) -> (r: Vec<Vec<u8>>)
    requires
        start <= s@.len(),
    ensures
        segment_views(r@) == split_segments(s@.skip(start as int)),
        r@.len() >= 1,
{
    let ghost body = s@.skip(start as int);
    let mut segs: Vec<Vec<u8>> = Vec::new();
    let mut cur: Vec<u8> = Vec::new();
    let mut i: usize = start;
    while i < s.len()
        invariant
            start <= i <= s@.len(),
            body == s@.skip(start as int),
            segment_views(segs@).push(cur@) == split_prefix(body, (i - start) as nat),
        decreases s@.len() - i,
    {
        let ghost n = (i - start) as nat;
        let ghost p = split_prefix(body, n);
        assert(body[n as int] == s@[i as int]);
        if s[i] == SLASH {
            let done = cur;
            segs.push(done);
            cur = Vec::new();
            assert(segment_views(segs@).push(cur@) =~= p.push(Seq::empty()));
        } else {
            cur.push(s[i]);
            assert(segment_views(segs@).push(cur@) =~= p.update(p.len() - 1, p.last().push(s@[i as int])));
        }
        i = i + 1;
    }
    segs.push(cur);
    assert(segment_views(segs@) == split_segments(body));
    segs
}

/// Splits a segment at its first `:` into the final directory segment and the target name.
fn split_at_colon(seg: &Vec<u8>) -> (r: (Vec<u8>, Vec<u8>))
    ensures
        (r.0@, r.1@) == split_last_segment(seg@),
{
    let mut c: usize = 0;
    while c < seg.len()
        invariant
            c <= seg@.len(),
            forall|j: int| 0 <= j < c ==> seg@[j] != COLON,
        ensures
            c <= seg@.len(),
            forall|j: int| 0 <= j < c ==> seg@[j] != COLON,
            c < seg@.len() ==> seg@[c as int] == COLON,
        decreases seg@.len() - c,
    {
        if seg[c] == COLON {
            break;
        }
        c = c + 1;
    }
    if c == seg.len() {
        assert(!seg@.contains(COLON));
        (seg.clone(), seg.clone())
    } else {
        assert(is_first_colon(seg@, c as int));
        let ghost k = choose|k: int| is_first_colon(seg@, k);
        assert(k == c) by {
            if k < c {
                assert(seg@[k] != COLON);
            } else if k > c {
                assert(seg@[c as int] != COLON);
            }
        }
        let mut dir_part: Vec<u8> = Vec::new();
        let mut name: Vec<u8> = Vec::new();
        append_range(&mut dir_part, seg.as_slice(), 0, c);
        append_range(&mut name, seg.as_slice(), c + 1, seg.len());
        assert(dir_part@ =~= seg@.take(c as int));
        assert(name@ =~= seg@.skip(c + 1));
        (dir_part, name)
    }
}

fn contains_colon(seg: &Vec<u8>) -> (r: bool)
    ensures
        r == seg@.contains(COLON),
{
    let mut i: usize = 0;
    while i < seg.len()
        invariant
            i <= seg@.len(),
            forall|j: int| 0 <= j < i ==> seg@[j] != COLON,
        decreases seg@.len() - i,
    {
        if seg[i] == COLON {
            return true;
        }
        i = i + 1;
    }
    false
}

/// The error of the first bad directory segment, if there is one.
fn first_segment_error(segs: &Vec<Vec<u8>>) -> (r: Option<PathError>)
    ensures
        r == segment_error(segment_views(segs@)),
{
    let mut i: usize = 0;
    assert(segment_views(segs@).skip(0) =~= segment_views(segs@));
    while i < segs.len()
        invariant
            i <= segs@.len(),
            segment_error(segment_views(segs@)) == segment_error(segment_views(segs@).skip(i as int)),
        decreases segs@.len() - i,
    {
        let ghost rest = segment_views(segs@).skip(i as int);
        assert(rest[0] == segs@[i as int]@);
        if contains_colon(&segs[i]) {
            return Some(PathError::UnexpectedColon);
        }
        if segs[i].len() == 0 {
            return Some(PathError::EmptySegment);
        }
        assert(rest.drop_first() =~= segment_views(segs@).skip(i + 1));
        i = i + 1;
    }
    assert(segment_views(segs@).skip(i as int) =~= Seq::empty());
    None
}

/// Whether the directory lies in `//third_party/rust`.
fn is_protected_dir(segs: &Vec<Vec<u8>>) -> (r: bool)
    ensures
        r == is_protected(segment_views(segs@)),
{
    if segs.len() < 2 {
        return false;
    }
    let third_party_bytes: Vec<u8> = vec![116u8, 104, 105, 114, 100, 95, 112, 97, 114, 116, 121];
    let rust_bytes: Vec<u8> = vec![114u8, 117, 115, 116];
    assert(third_party_bytes@ =~= third_party());
    assert(rust_bytes@ =~= rust());
    bytes_equal(segs[0].as_slice(), third_party_bytes.as_slice()) && bytes_equal(
        segs[1].as_slice(),
        rust_bytes.as_slice(),
    )
}

/// `//` followed by the segments joined with `/`.
fn directory_string(segs: &Vec<Vec<u8>>) -> (r: Vec<u8>)
    ensures
        r@ == canonical_directory(segment_views(segs@)),
{
    let mut r: Vec<u8> = vec![SLASH, SLASH];
    let mut i: usize = 0;
    while i < segs.len()
        invariant
            i <= segs@.len(),
            r@ == canonical_directory(segment_views(segs@).take(i as int)),
        decreases segs@.len() - i,
    {
        let ghost prefix = segment_views(segs@).take(i as int + 1);
        assert(prefix.drop_last() =~= segment_views(segs@).take(i as int));
        if i > 0 {
            r.push(SLASH);
        }
        append_bytes(&mut r, segs[i].as_slice());
        assert(r@ =~= canonical_directory(prefix));
        i = i + 1;
    }
    assert(segment_views(segs@).take(i as int) =~= segment_views(segs@));
    r
}

/// A GN target resolved from its path: its canonical directory, its target
/// name, and the crate name mangled from the two.
#[derive(Debug)]
pub struct GnTarget {
    pub directory: Vec<u8>,
    pub gn_name: Vec<u8>,
    pub mangled_crate_name: Vec<u8>,
}

impl GnTarget {
    /// The target that `t` describes.
    pub open spec fn describes(&self, t: TargetPath) -> bool {
        &&& self.directory@ == canonical_directory(t.directory_segments)
        &&& self.gn_name@ == t.target_name
        &&& self.mangled_crate_name@ == mangled_name(self.directory@, self.gn_name@)
    }

    /// Resolves and validates the GN path `s`, and mangles its crate name.
    pub fn parse(s: &[u8]) -> (r: Result<GnTarget, PathError>)
        ensures
            match resolve(s@) {
                Ok(t) => r matches Ok(g) && g.describes(t),
                Err(e) => r == Err::<GnTarget, PathError>(e),
            },
    {
        if !(s.len() >= 2 && s[0] == SLASH && s[1] == SLASH) {
            return Err(PathError::NotAbsolutePath);
        }
        let mut segs = split_on_slash(s, 2);
        let last = segs.pop().unwrap();
        let (sub, gn_name) = split_at_colon(&last);
        segs.push(sub);
        let ghost raw = raw_segments(s@);
        assert(raw.last() == last@);
        assert(segment_views(segs@) =~= raw.drop_last().push(split_last_segment(raw.last()).0));
        match first_segment_error(&segs) {
            Some(e) => {
                return Err(e);
            },
            None => {},
        }
        if is_protected_dir(&segs) {
            return Err(PathError::ProtectedNamespace);
        }
        if !parses_as_identifier(gn_name.as_slice()) {
            return Err(PathError::InvalidTargetName);
        }
        let directory = directory_string(&segs);
        let mangled_crate_name = mangle_crate_name(directory.as_slice(), gn_name.as_slice());
        Ok(GnTarget { directory, gn_name, mangled_crate_name })
    }
}

} // verus!
