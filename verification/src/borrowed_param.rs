//! Finds a borrowed type among the generic arguments of a path, as in
//! `Box<&T>`.
use vstd::prelude::*;
use crate::unnecessary_join::Span;

verus! {

/// A generic argument of a path segment.
#[derive(Clone, Copy, Debug, PartialEq, Eq, Structural)]
pub enum GenericArg {
    Lifetime,
    /// A type argument; `is_ref` tells whether it is a reference type `&T`.
    Type { is_ref: bool, span: Span },
    Const,
    Infer,
}

/// The generic arguments of a path segment.
pub struct GenericArgs {
    /// Whether they are written in parentheses, as in `Fn(A) -> B`.
    pub parenthesized: bool,
    pub args: Vec<GenericArg>,
}

/// The index of the first type argument among `args`, if any.
pub open spec fn first_type_arg(args: Seq<GenericArg>) -> Option<int>
    decreases args.len(),
{
    if args.len() == 0 {
        None
    } else {
        match first_type_arg(args.drop_last()) {
            Some(i) => Some(i),
            None => if args.last() is Type { Some(args.len() - 1) } else { None },
        }
    }
}

/// The span of the first type argument of the last segment of a path
/// (`last_segment_args`) when that argument is a reference type and the
/// arguments are in angle brackets.
pub open spec fn spec_match_borrows_parameter(last_segment_args: Option<GenericArgs>) -> Option<Span> {
    match last_segment_args {
        Some(params) => if params.parenthesized {
            None
        } else {
            match first_type_arg(params.args@) {
                Some(i) => match params.args@[i] {
                    GenericArg::Type { is_ref, span } => if is_ref { Some(span) } else { None },
                    _ => None,
                },
                None => None,
            }
        },
        None => None,
    }
}

/// If the first type argument of the path's last segment is a reference
/// type, its span.
pub fn match_borrows_parameter(last_segment_args: &Option<GenericArgs>) -> (found: Option<Span>)
    ensures
        found == spec_match_borrows_parameter(*last_segment_args),
{
    match last_segment_args {
        Some(params) => {
            if params.parenthesized {
                return None;
            }
            let mut i: usize = 0;
            while i < params.args.len()
                invariant
                    0 <= i <= params.args@.len(),
                    *last_segment_args == Some(*params),
                    !params.parenthesized,
                    first_type_arg(params.args@.take(i as int)) is None,
                decreases params.args.len() - i,
            {
                assert(params.args@.take(i + 1).drop_last() == params.args@.take(i as int));
                match params.args[i] {
                    GenericArg::Type { is_ref, span } => {
                        proof {
                            assert(params.args@.take(i + 1).last() == params.args@[i as int]);
                            assert(first_type_arg(params.args@.take(i + 1)) == Some(i as int));
                            lemma_first_type_arg_prefix(params.args@, i as int + 1);
                        }
                        return if is_ref { Some(span) } else { None };
                    },
                    _ => {},
                }
                i = i + 1;
            }
            proof {
                assert(params.args@.take(params.args@.len() as int) == params.args@);
            }
            None
        },
        None => None,
    }
}

/// The first type argument of a prefix that has one is the first type
/// argument of the whole sequence.
pub proof fn lemma_first_type_arg_prefix(args: Seq<GenericArg>, n: int)
    requires
        0 <= n <= args.len(),
        first_type_arg(args.take(n)) is Some,
    ensures
        first_type_arg(args) == first_type_arg(args.take(n)),
    decreases args.len() - n,
{
    if n < args.len() {
        assert(args.take(n + 1).drop_last() == args.take(n));
        lemma_first_type_arg_prefix(args, n + 1);
    } else {
        assert(args.take(n) == args);
    }
}

/// The first type argument is a type argument, and no argument before it is.
proof fn lemma_first_type_arg_is_first(args: Seq<GenericArg>)
    ensures
        first_type_arg(args) matches Some(i) ==> 0 <= i < args.len() && args[i] is Type
            && forall|k: int| 0 <= k < i ==> !(#[trigger] args[k] is Type),
        first_type_arg(args) is None ==> forall|k: int| 0 <= k < args.len() ==> !(#[trigger] args[k] is Type),
    decreases args.len(),
{
    if args.len() > 0 {
        lemma_first_type_arg_is_first(args.drop_last());
        assert forall|k: int| 0 <= k < args.len() - 1 implies #[trigger] args[k] == args.drop_last()[k] by {}
    }
}

/// A span is found only for arguments in angle brackets whose first type
/// argument, with any lifetimes, consts or inferred arguments before it, is
/// a reference type; the span is that argument's. Arguments in parentheses,
/// a first type argument that is no reference, or no type argument at all
/// give nothing.
pub proof fn lemma_borrowed_param_laws(last_segment_args: Option<GenericArgs>)
    ensures
        spec_match_borrows_parameter(last_segment_args) matches Some(span) ==> {
            let args = last_segment_args->0.args@;
            &&& last_segment_args is Some
            &&& !last_segment_args->0.parenthesized
            &&& exists|i: int| 0 <= i < args.len() && #[trigger] args[i] == (GenericArg::Type { is_ref: true, span })
                && forall|k: int| 0 <= k < i ==> !(#[trigger] args[k] is Type)
        },
        (last_segment_args is Some && !last_segment_args->0.parenthesized && last_segment_args->0.args@.len() > 0
            && (last_segment_args->0.args@[0] matches GenericArg::Type { is_ref, span } && is_ref))
            ==> spec_match_borrows_parameter(last_segment_args) == Some(last_segment_args->0.args@[0]->span),
{
    if last_segment_args is Some {
        let args = last_segment_args->0.args@;
        lemma_first_type_arg_is_first(args);
        if spec_match_borrows_parameter(last_segment_args) is Some {
            let i = first_type_arg(args)->0;
            assert(args[i] == (GenericArg::Type {
                is_ref: true,
                span: spec_match_borrows_parameter(last_segment_args)->0,
            }));
        }
        if args.len() > 0 && args[0] is Type {
            lemma_first_type_arg_prefix(args, 1);
            assert(args.take(1).drop_last() =~= Seq::<GenericArg>::empty());
            assert(args.take(1).last() == args[0]);
        }
    }
}

} // verus!
