//! Writing declarations out as Rust source text.
use vstd::prelude::*;
use crate::ascii::{LINE_FEED, SEMICOLON, SPACE};
use crate::bytes::append_bytes;
use crate::emit::{views, Declaration, DeclarationView};
use crate::parser::Visibility;

verus! {

/// The visibility as written in source, followed by a space when it is not empty.
pub open spec fn visibility_text(v: Visibility) -> Seq<u8> {
    match v {
        Visibility::Private => Seq::empty(),
        Visibility::Public => seq![112u8, 117, 98, 32],
        Visibility::PublicCrate => seq![112u8, 117, 98, 40, 99, 114, 97, 116, 101, 41, 32],
        Visibility::PublicSuper => seq![112u8, 117, 98, 40, 115, 117, 112, 101, 114, 41, 32],
    }
}

/// The two keywords that open a crate declaration, each followed by a space.
pub open spec fn crate_keywords() -> Seq<u8> {
    seq![101u8, 120, 116, 101, 114, 110, 32, 99, 114, 97, 116, 101, 32]
}

/// ` as `
pub open spec fn as_keyword() -> Seq<u8> {
    seq![SPACE, 97u8, 115, SPACE]
}

/// One declaration on a line of its own.
pub open spec fn declaration_text(d: DeclarationView) -> Seq<u8> {
    visibility_text(d.visibility) + crate_keywords() + d.crate_name + as_keyword() + d.local_name
        + seq![SEMICOLON, LINE_FEED]
}

/// The declarations one after another.
pub open spec fn declarations_text(ds: Seq<DeclarationView>) -> Seq<u8>
    decreases ds.len(),
{
    if ds.len() == 0 {
        Seq::empty()
    } else {
        declarations_text(ds.drop_last()) + declaration_text(ds.last())
    }
}

fn visibility_bytes(v: Visibility) -> (r: Vec<u8>)
    ensures
        r@ == visibility_text(v),
{
    let r: Vec<u8> = match v {
        Visibility::Private => Vec::new(),
        Visibility::Public => vec![112u8, 117, 98, 32],
        Visibility::PublicCrate => vec![112u8, 117, 98, 40, 99, 114, 97, 116, 101, 41, 32],
        Visibility::PublicSuper => vec![112u8, 117, 98, 40, 115, 117, 112, 101, 114, 41, 32],
    };
    assert(r@ =~= visibility_text(v));
    r
}

/// Appends the text of one declaration to `out`.
pub fn render_declaration(out: &mut Vec<u8>, d: &Declaration)
    ensures
        final(out)@ == old(out)@ + declaration_text(d@),
{
    let vis = visibility_bytes(d.visibility);
    append_bytes(out, vis.as_slice());
    let keywords: [u8; 13] = [101u8, 120, 116, 101, 114, 110, 32, 99, 114, 97, 116, 101, 32];
    append_bytes(out, &keywords);
    append_bytes(out, d.crate_name.as_slice());
    let as_word: [u8; 4] = [SPACE, 97u8, 115, SPACE];
    append_bytes(out, &as_word);
    append_bytes(out, d.local_name.as_slice());
    out.push(SEMICOLON);
    out.push(LINE_FEED);
    assert(keywords@ =~= crate_keywords());
    assert(as_word@ =~= as_keyword());
    assert(final(out)@ =~= old(out)@ + declaration_text(d@));
}

/// The source text of a list of declarations, one per line, in order.
pub fn render(ds: &Vec<Declaration>) -> (r: Vec<u8>)
    ensures
        r@ == declarations_text(views(ds@)),
{
    let mut out: Vec<u8> = Vec::new();
    let mut i: usize = 0;
    while i < ds.len()
        invariant
            i <= ds@.len(),
            out@ == declarations_text(views(ds@).take(i as int)),
        decreases ds@.len() - i,
    {
        render_declaration(&mut out, &ds[i]);
        assert(views(ds@).take(i + 1).drop_last() =~= views(ds@).take(i as int));
        i = i + 1;
    }
    assert(views(ds@).take(i as int) =~= views(ds@));
    out
}

} // verus!
