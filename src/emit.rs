//! Turning parsed imports into crate declarations.
use vstd::prelude::*;
use crate::bytes::append_range;
use crate::mangle::mangled_name;
use crate::parser::{import_in, parse_imports, parse_text, span_text, Import, ParseError, Visibility};
use crate::path::{canonical_directory, resolve, GnTarget, PathError, TargetPath};

verus! {

/// Why an import list produced no declarations.
#[derive(Clone, Copy, Debug, PartialEq, Eq, Structural)]
pub enum ImportError {
    /// The text is not a well-formed import list.
    Syntax(ParseError),
    /// The GN path of the string literal at `pos` was refused.
    InvalidPath { error: PathError, pos: usize },
}

/// A declaration that brings crate `crate_name` into scope as `local_name`.
#[derive(Debug)]
pub struct Declaration {
    pub visibility: Visibility,
    pub crate_name: Vec<u8>,
    pub local_name: Vec<u8>,
}

pub ghost struct DeclarationView {
    pub visibility: Visibility,
    pub crate_name: Seq<u8>,
    pub local_name: Seq<u8>,
}

impl View for Declaration {
    type V = DeclarationView;

    open spec fn view(&self) -> DeclarationView {
        DeclarationView {
            visibility: self.visibility,
            crate_name: self.crate_name@,
            local_name: self.local_name@,
        }
    }
}

pub open spec fn views(v: Seq<Declaration>) -> Seq<DeclarationView> {
    v.map_values(|d: Declaration| d@)
}

/// The declaration for import `imp` of text `s`, whose path resolved to `t`:
/// the crate name comes from the path alone, the local name from the alias
/// if there is one and else from the target name.
pub open spec fn declaration_for(s: Seq<u8>, imp: Import, t: TargetPath) -> DeclarationView {
    DeclarationView {
        visibility: imp.visibility,
        crate_name: mangled_name(canonical_directory(t.directory_segments), t.target_name),
        local_name: match imp.alias {
            Some(a) => span_text(s, a),
            None => t.target_name,
        },
    }
}

/// The declarations for a list of imports of text `s`, in order; the first
/// refused path aborts the whole list.
pub open spec fn declarations(s: Seq<u8>, imps: Seq<Import>) -> Result<Seq<DeclarationView>, ImportError>
    decreases imps.len(),
{
    if imps.len() == 0 {
        Ok(Seq::empty())
    } else {
        match resolve(span_text(s, imps[0].path)) {
            Err(e) => Err(ImportError::InvalidPath { error: e, pos: imps[0].path_pos }),
            Ok(t) => match declarations(s, imps.drop_first()) {
                Ok(rest) => Ok(seq![declaration_for(s, imps[0], t)] + rest),
                Err(e) => Err(e),
            },
        }
    }
}

/// The declarations that the import list in `s` stands for.
pub open spec fn import_spec(s: Seq<u8>) -> Result<Seq<DeclarationView>, ImportError> {
    match parse_text(s) {
        Err(e) => Err(ImportError::Syntax(e)),
        Ok(imps) => declarations(s, imps),
    }
}

proof fn lemma_declarations_each(s: Seq<u8>, imps: Seq<Import>)
    requires
        declarations(s, imps) is Ok,
    ensures
        declarations(s, imps)->Ok_0.len() == imps.len(),
        forall|k: int|
            0 <= k < imps.len() ==> {
                &&& #[trigger] resolve(span_text(s, imps[k].path)) is Ok
                &&& declarations(s, imps)->Ok_0[k] == declaration_for(
                    s,
                    imps[k],
                    resolve(span_text(s, imps[k].path))->Ok_0,
                )
            },
    decreases imps.len(),
{
    if imps.len() > 0 {
        let rest = imps.drop_first();
        lemma_declarations_each(s, rest);
        assert forall|k: int| 0 <= k < imps.len() implies {
            &&& #[trigger] resolve(span_text(s, imps[k].path)) is Ok
            &&& declarations(s, imps)->Ok_0[k] == declaration_for(
                s,
                imps[k],
                resolve(span_text(s, imps[k].path))->Ok_0,
            )
        } by {
            if k > 0 {
                assert(imps[k] == rest[k - 1]);
            }
        }
    }
}

/// Each emitted declaration has the visibility of the statement it comes
/// from, and there is one declaration per statement, in order.
pub proof fn visibility_is_kept(s: Seq<u8>)
    requires
        import_spec(s) is Ok,
    ensures
        parse_text(s) is Ok,
        import_spec(s)->Ok_0.len() == parse_text(s)->Ok_0.len(),
        forall|k: int|
            0 <= k < import_spec(s)->Ok_0.len() ==> (#[trigger] import_spec(s)->Ok_0[k]).visibility
                == parse_text(s)->Ok_0[k].visibility,
{
    let imps = parse_text(s)->Ok_0;
    lemma_declarations_each(s, imps);
    assert forall|k: int| 0 <= k < import_spec(s)->Ok_0.len() implies (
    #[trigger] import_spec(s)->Ok_0[k]).visibility == imps[k].visibility by {
        assert(resolve(span_text(s, imps[k].path)) is Ok);
    }
}

/// A statement with an alias is declared under the alias, and its crate name
/// is mangled from its GN path alone, whatever the alias says.
pub proof fn alias_names_the_declaration(s: Seq<u8>, k: int)
    requires
        import_spec(s) is Ok,
        0 <= k < parse_text(s)->Ok_0.len(),
        parse_text(s)->Ok_0[k].alias is Some,
    ensures
        ({
            let imp = parse_text(s)->Ok_0[k];
            let t = resolve(span_text(s, imp.path))->Ok_0;
            &&& resolve(span_text(s, imp.path)) is Ok
            &&& import_spec(s)->Ok_0[k].local_name == span_text(s, imp.alias->Some_0)
            &&& import_spec(s)->Ok_0[k].crate_name == mangled_name(
                canonical_directory(t.directory_segments),
                t.target_name,
            )
        }),
{
    lemma_declarations_each(s, parse_text(s)->Ok_0);
}

/// A statement without an alias is declared under its target name.
pub proof fn target_name_names_the_declaration(s: Seq<u8>, k: int)
    requires
        import_spec(s) is Ok,
        0 <= k < parse_text(s)->Ok_0.len(),
        parse_text(s)->Ok_0[k].alias is None,
    ensures
        ({
            let imp = parse_text(s)->Ok_0[k];
            &&& resolve(span_text(s, imp.path)) is Ok
            &&& import_spec(s)->Ok_0[k].local_name == resolve(span_text(s, imp.path))->Ok_0.target_name
        }),
{
    lemma_declarations_each(s, parse_text(s)->Ok_0);
}

/// The declaration for one import whose path resolved to `target`.
fn declaration_of(s: &[u8], imp: &Import, target: GnTarget) -> (r: Declaration)
    requires
        import_in(s@, *imp),
    ensures
        forall|t: TargetPath| target.describes(t) ==> r@ == declaration_for(s@, *imp, t),
{
    let local_name = match imp.alias {
        Some(a) => {
            let mut name: Vec<u8> = Vec::new();
            append_range(&mut name, s, a.start, a.end);
            name
        },
        None => target.gn_name,
    };
    Declaration { visibility: imp.visibility, crate_name: target.mangled_crate_name, local_name }
}

/// The declarations for the imports `imps` parsed from `s`, in order.
pub fn emit(s: &[u8], imps: &Vec<Import>) -> (r: Result<Vec<Declaration>, ImportError>)
    requires
        forall|k: int| 0 <= k < imps@.len() ==> import_in(s@, #[trigger] imps@[k]),
    ensures
        match declarations(s@, imps@) {
            Ok(v) => r matches Ok(w) && views(w@) == v,
            Err(e) => r matches Err(f) && f == e,
        },
{
    let mut out: Vec<Declaration> = Vec::new();
    let mut i: usize = 0;
    proof {
        assert(imps@.skip(0) =~= imps@);
        assert(views(out@) =~= Seq::<DeclarationView>::empty());
        match declarations(s@, imps@) {
            Ok(v) => {
                assert(views(out@) + v =~= v);
            },
            Err(e) => {},
        }
    }
    while i < imps.len()
        invariant
            i <= imps@.len(),
            forall|k: int| 0 <= k < imps@.len() ==> import_in(s@, #[trigger] imps@[k]),
            declarations(s@, imps@) == (match declarations(s@, imps@.skip(i as int)) {
                Ok(rest) => Ok(views(out@) + rest),
                Err(e) => Err(e),
            }),
        decreases imps@.len() - i,
    {
        let ghost rest = imps@.skip(i as int);
        assert(rest[0] == imps@[i as int]);
        assert(rest.drop_first() =~= imps@.skip(i + 1));
        let imp = imps[i];
        assert(import_in(s@, imp));
        let mut path: Vec<u8> = Vec::new();
        append_range(&mut path, s, imp.path.start, imp.path.end);
        match GnTarget::parse(path.as_slice()) {
            Err(e) => {
                return Err(ImportError::InvalidPath { error: e, pos: imp.path_pos });
            },
            Ok(target) => {
                let ghost t = resolve(path@)->Ok_0;
                let d = declaration_of(s, &imp, target);
                let ghost before = views(out@);
                out.push(d);
                assert(views(out@) =~= before + seq![declaration_for(s@, imp, t)]);
                assert(declarations(s@, imps@) == (match declarations(s@, imps@.skip(i + 1)) {
                    Ok(rest) => Ok(views(out@) + rest),
                    Err(e) => Err(e),
                })) by {
                    match declarations(s@, imps@.skip(i + 1)) {
                        Ok(r2) => {
                            assert(before + (seq![declaration_for(s@, imp, t)] + r2) =~= views(out@) + r2);
                        },
                        Err(e) => {},
                    }
                }
            },
        }
        i = i + 1;
    }
    assert(views(out@) + Seq::<DeclarationView>::empty() =~= views(out@));
    Ok(out)
}

/// Parses the import list in `s` and turns each import into a declaration,
/// in order; any error aborts the whole list.
pub fn import(s: &[u8]) -> (r: Result<Vec<Declaration>, ImportError>)
    ensures
        match import_spec(s@) {
            Ok(v) => r matches Ok(w) && views(w@) == v,
            Err(e) => r matches Err(f) && f == e,
        },
{
    match parse_imports(s) {
        Err(e) => Err(ImportError::Syntax(e)),
        Ok(imps) => emit(s, &imps),
    }
}

} // verus!
