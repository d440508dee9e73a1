//! Validation of a declared condition domain.
//!
//! A resource kind declares its conditions as a list of named variants,
//! some flagged as dependents.  Exactly one variant must be the top-level
//! condition, named `Ready` or `Succeeded`, and it may not be flagged as a
//! dependent.  These rules are checked here, over the plain names and
//! flags of the declaration.

use vstd::prelude::*;
use vstd::string::StringExecFns;

verus! {

/// One declared condition variant: its name and whether it is flagged as
/// a dependent.
#[derive(Clone, Debug)]
pub struct VariantDecl {
    pub name: String,
    pub dependent: bool,
}

/// Why a declared condition domain is rejected.
#[derive(Clone, Debug)]
pub enum VerificationError {
    /// The named top-level variant may not be a dependent.
    NotDependent(String),
    /// The domain must contain exactly one `Ready` or `Succeeded` variant.
    OneRequiredVariant,
}

/// The spec-level value of a rejection.
pub enum VerificationErrorView {
    NotDependent(Seq<char>),
    OneRequiredVariant,
}

impl View for VerificationError {
    type V = VerificationErrorView;

    open spec fn view(&self) -> VerificationErrorView {
        match self {
            VerificationError::NotDependent(name) => VerificationErrorView::NotDependent(name@),
            VerificationError::OneRequiredVariant => VerificationErrorView::OneRequiredVariant,
        }
    }
}

impl VerificationError {
    /// The rejection spelled out for a human reader.
    pub fn message(&self) -> (r: String)
        ensures
            match self {
                VerificationError::NotDependent(name) => r@ == name@
                    + " may not be a dependent"@,
                VerificationError::OneRequiredVariant => r@
                    == "ConditionType must contain only one of either Ready or Succeeded variant"@,
            },
    {
        match self {
            VerificationError::NotDependent(name) => {
                let mut text = name.clone();
                text.append(" may not be a dependent");
                text
            }
            VerificationError::OneRequiredVariant => String::from_str(
                "ConditionType must contain only one of either Ready or Succeeded variant",
            ),
        }
    }
}

/// Whether a variant name marks the top-level condition.
pub open spec fn is_required_name(name: Seq<char>) -> bool {
    name == "Ready"@ || name == "Succeeded"@
}

/// The outcome of scanning the declared variants front to back, having
/// already `seen` a top-level variant or not: the first violation found,
/// or `None` when the declaration is valid.
pub open spec fn spec_verify_variants(
    variants: Seq<(Seq<char>, bool)>,
    seen: bool,
) -> Option<VerificationErrorView>
    decreases variants.len(),
{
    if variants.len() == 0 {
        if seen {
            Option::None
        } else {
            Option::Some(VerificationErrorView::OneRequiredVariant)
        }
    } else {
        let v = variants[0];
        if is_required_name(v.0) {
            if v.1 {
                Option::Some(VerificationErrorView::NotDependent(v.0))
            } else if seen {
                Option::Some(VerificationErrorView::OneRequiredVariant)
            } else {
                spec_verify_variants(variants.drop_first(), true)
            }
        } else {
            spec_verify_variants(variants.drop_first(), seen)
        }
    }
}

/// The view of a variant declaration list.
pub open spec fn decls_view(variants: Seq<VariantDecl>) -> Seq<(Seq<char>, bool)> {
    variants.map_values(|v: VariantDecl| (v.name@, v.dependent))
}

/// Check a declared condition domain: exactly one `Ready` or `Succeeded`
/// variant, which must not be flagged as a dependent.  The first
/// violation in declaration order is reported.
pub fn verify_variants(variants: &Vec<VariantDecl>) -> (r: Result<(), VerificationError>)
    ensures
        match r {
            Result::Ok(()) => spec_verify_variants(decls_view(variants@), false) is None,
            Result::Err(e) => spec_verify_variants(decls_view(variants@), false)
                == Option::Some(e@),
        },
{
    let ghost all = decls_view(variants@);
    proof {
        assert(all.subrange(0, all.len() as int) =~= all);
    }
    let mut seen: bool = false;
    let mut i: usize = 0;
    while i < variants.len()
        invariant
            i <= variants.len(),
            all == decls_view(variants@),
            all.len() == variants@.len(),
            forall|k: int| 0 <= k < all.len() ==> #[trigger] all[k] == (variants@[k].name@, variants@[k].dependent),
            spec_verify_variants(all, false) == spec_verify_variants(
                all.subrange(i as int, all.len() as int),
                seen,
            ),
        decreases variants.len() - i,
    {
        let ghost suffix = all.subrange(i as int, all.len() as int);
        proof {
            assert(suffix.len() > 0);
            assert(suffix[0] == all[i as int]);
            assert(suffix.drop_first() =~= all.subrange(i + 1, all.len() as int));
        }
        let v = &variants[i];
        let required = is_required(v.name.as_str());
        if required {
            if v.dependent {
                return Err(VerificationError::NotDependent(v.name.clone()));
            }
            if seen {
                return Err(VerificationError::OneRequiredVariant);
            }
            seen = true;
        }
        i = i + 1;
    }
    proof {
        assert(all.subrange(all.len() as int, all.len() as int) =~= Seq::<(
            Seq<char>,
            bool,
        )>::empty());
    }
    if seen {
        Ok(())
    } else {
        Err(VerificationError::OneRequiredVariant)
    }
}

/// Whether a name is `Ready` or `Succeeded`.
fn is_required(name: &str) -> (r: bool)
    ensures
        r == is_required_name(name@),
{
    let ready = String::from_str("Ready");
    let succeeded = String::from_str("Succeeded");
    let owned = String::from_str(name);
    owned == ready || owned == succeeded
}

} // verus!
