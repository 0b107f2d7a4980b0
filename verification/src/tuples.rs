//! Tuples as collections of reactive sources.
use crate::context::{ContextState, EffectContext};
use crate::lifetime::{lemma_evolves_refl, lemma_evolves_trans};
use crate::source::{ReactiveSource, ReactiveSources, SourceTypes, SourcesTypes};
use crate::template::{TemplateContext, TemplateError, TemplateState};
use vstd::prelude::*;

verus! {

broadcast use {lemma_evolves_refl, lemma_evolves_trans};

/// What resolving one more source may do, after the sources before it: nothing if one of those
/// failed.
pub open spec fn resolves_next<V, B, S: ReactiveSource<V, B>>(
    source: S,
    failed: Option<TemplateError>,
    before: TemplateState<V, B>,
    resolved: Option<S::Resolved>,
    failure: Option<TemplateError>,
    after: TemplateState<V, B>,
) -> bool {
    match failed {
        Some(error) => resolved is None && failure == failed && after == before,
        None => {
            &&& resolved is Some <==> failure is None
            &&& source.resolves(
                before,
                match failure {
                    Some(error) => Err(error),
                    None => Ok(resolved->0),
                },
                after,
            )
        },
    }
}

/// Resolves one more source, unless one before it failed.
fn resolve_next<V, B, S: ReactiveSource<V, B>>(
    source: &S,
    failure: &mut Option<TemplateError>,
    context: &mut TemplateContext<'_, V, B>,
) -> (resolved: Option<S::Resolved>)
    requires
        old(context).wf(),
    ensures
        final(context).wf(),
        *final(final(context).borrow()) == *final(old(context).borrow()),
        old(context)@.world.evolves_to(final(context)@.world),
        resolves_next(
            *source,
            *old(failure),
            old(context)@,
            resolved,
            *final(failure),
            final(context)@,
        ),
{
    if failure.is_some() {
        return None;
    }
    match source.resolve(context) {
        Ok(resolved) => Some(resolved),
        Err(error) => {
            *failure = Some(error);
            None
        },
    }
}

impl SourcesTypes for () {
    type Output = ();

    type Resolved = ();
}

impl<V, B> ReactiveSources<V, B> for () {
    open spec fn resolves_all(
        &self,
        before: TemplateState<V, B>,
        resolved: Result<(), TemplateError>,
        after: TemplateState<V, B>,
    ) -> bool {
        resolved is Ok && after == before
    }

    open spec fn reads_all(
        &self,
        resolved: (),
        before: ContextState<V, B>,
        values: (),
        after: ContextState<V, B>,
    ) -> bool {
        after == before
    }

    fn resolve_all(&self, context: &mut TemplateContext<'_, V, B>) -> (resolved: Result<
        (),
        TemplateError,
    >) {
        Ok(())
    }

    fn read_all(
        &self,
        resolved: &(),
        context: &mut EffectContext<'_, V, B>,
    ) -> (values: ()) {
        ()
    }
}

impl<S0: SourceTypes> SourcesTypes for (S0,) {
    type Output = (S0::Output,);

    type Resolved = (S0::Resolved,);
}

impl<V, B, S0: ReactiveSource<V, B>> ReactiveSources<V, B> for (S0,) {
    open spec fn resolves_all(
        &self,
        before: TemplateState<V, B>,
        resolved: Result<(S0::Resolved,), TemplateError>,
        after: TemplateState<V, B>,
    ) -> bool {
        exists|
            x0: Option<S0::Resolved>,
            f1: Option<TemplateError>,
        |
            {
                &&& #[trigger] resolves_next(self.0, None, before, x0, f1, after)
                &&& resolved == match f1 {
                    Some(error) => Err(error),
                    None => Ok((x0->0,)),
                }
            }
    }

    open spec fn reads_all(
        &self,
        resolved: (S0::Resolved,),
        before: ContextState<V, B>,
        values: (S0::Output,),
        after: ContextState<V, B>,
    ) -> bool {
        self.0.reads(resolved.0, before, values.0, after)
    }

    fn resolve_all(&self, context: &mut TemplateContext<'_, V, B>) -> (resolved: Result<
        (S0::Resolved,),
        TemplateError,
    >) {
        let ghost before = context@;
        let mut failure: Option<TemplateError> = None;
        let x0 = resolve_next(&self.0, &mut failure, context);
        let ghost (f1, c1) = (failure, context@);
        proof {
            assert(resolves_next(self.0, None, before, x0, f1, c1));
        }
        match failure {
            Some(error) => Err(error),
            None => Ok((x0.unwrap(),)),
        }
    }

    fn read_all(
        &self,
        resolved: &(S0::Resolved,),
        context: &mut EffectContext<'_, V, B>,
    ) -> (values: (S0::Output,)) {
        let ghost before = context@;
        let v0 = self.0.read(&resolved.0, context);
        let ghost c1 = context@;
        let values = (v0,);
        proof {
            assert(self.0.reads(resolved.0, before, values.0, c1));
        }
        values
    }
}

impl<S0: SourceTypes, S1: SourceTypes> SourcesTypes for (S0, S1) {
    type Output = (S0::Output, S1::Output);

    type Resolved = (S0::Resolved, S1::Resolved);
}

impl<V, B, S0: ReactiveSource<V, B>, S1: ReactiveSource<V, B>> ReactiveSources<V, B> for (S0, S1) {
    open spec fn resolves_all(
        &self,
        before: TemplateState<V, B>,
        resolved: Result<(S0::Resolved, S1::Resolved), TemplateError>,
        after: TemplateState<V, B>,
    ) -> bool {
        exists|
            x0: Option<S0::Resolved>,
            f1: Option<TemplateError>,
            c1: TemplateState<V, B>,
            x1: Option<S1::Resolved>,
            f2: Option<TemplateError>,
        |
            {
                &&& #[trigger] resolves_next(self.0, None, before, x0, f1, c1)
                &&& #[trigger] resolves_next(self.1, f1, c1, x1, f2, after)
                &&& resolved == match f2 {
                    Some(error) => Err(error),
                    None => Ok((x0->0, x1->0)),
                }
            }
    }

    open spec fn reads_all(
        &self,
        resolved: (S0::Resolved, S1::Resolved),
        before: ContextState<V, B>,
        values: (S0::Output, S1::Output),
        after: ContextState<V, B>,
    ) -> bool {
        exists|
            c1: ContextState<V, B>,
        |
            {
                &&& #[trigger] self.0.reads(resolved.0, before, values.0, c1)
                &&& #[trigger] self.1.reads(resolved.1, c1, values.1, after)
            }
    }

    fn resolve_all(&self, context: &mut TemplateContext<'_, V, B>) -> (resolved: Result<
        (S0::Resolved, S1::Resolved),
        TemplateError,
    >) {
        let ghost before = context@;
        let mut failure: Option<TemplateError> = None;
        let x0 = resolve_next(&self.0, &mut failure, context);
        let ghost (f1, c1) = (failure, context@);
        let x1 = resolve_next(&self.1, &mut failure, context);
        let ghost (f2, c2) = (failure, context@);
        proof {
            assert(resolves_next(self.0, None, before, x0, f1, c1));
            assert(resolves_next(self.1, f1, c1, x1, f2, c2));
        }
        match failure {
            Some(error) => Err(error),
            None => Ok((x0.unwrap(), x1.unwrap())),
        }
    }

    fn read_all(
        &self,
        resolved: &(S0::Resolved, S1::Resolved),
        context: &mut EffectContext<'_, V, B>,
    ) -> (values: (S0::Output, S1::Output)) {
        let ghost before = context@;
        let v0 = self.0.read(&resolved.0, context);
        let ghost c1 = context@;
        let v1 = self.1.read(&resolved.1, context);
        let ghost c2 = context@;
        let values = (v0, v1);
        proof {
            assert(self.0.reads(resolved.0, before, values.0, c1));
            assert(self.1.reads(resolved.1, c1, values.1, c2));
        }
        values
    }
}

impl<S0: SourceTypes, S1: SourceTypes, S2: SourceTypes> SourcesTypes for (S0, S1, S2) {
    type Output = (S0::Output, S1::Output, S2::Output);

    type Resolved = (S0::Resolved, S1::Resolved, S2::Resolved);
}

impl<V, B, S0: ReactiveSource<V, B>, S1: ReactiveSource<V, B>, S2: ReactiveSource<V, B>> ReactiveSources<V, B> for (S0, S1, S2) {
    open spec fn resolves_all(
        &self,
        before: TemplateState<V, B>,
        resolved: Result<(S0::Resolved, S1::Resolved, S2::Resolved), TemplateError>,
        after: TemplateState<V, B>,
    ) -> bool {
        exists|
            x0: Option<S0::Resolved>,
            f1: Option<TemplateError>,
            c1: TemplateState<V, B>,
            x1: Option<S1::Resolved>,
            f2: Option<TemplateError>,
            c2: TemplateState<V, B>,
            x2: Option<S2::Resolved>,
            f3: Option<TemplateError>,
        |
            {
                &&& #[trigger] resolves_next(self.0, None, before, x0, f1, c1)
                &&& #[trigger] resolves_next(self.1, f1, c1, x1, f2, c2)
                &&& #[trigger] resolves_next(self.2, f2, c2, x2, f3, after)
                &&& resolved == match f3 {
                    Some(error) => Err(error),
                    None => Ok((x0->0, x1->0, x2->0)),
                }
            }
    }

    open spec fn reads_all(
        &self,
        resolved: (S0::Resolved, S1::Resolved, S2::Resolved),
        before: ContextState<V, B>,
        values: (S0::Output, S1::Output, S2::Output),
        after: ContextState<V, B>,
    ) -> bool {
        exists|
            c1: ContextState<V, B>,
            c2: ContextState<V, B>,
        |
            {
                &&& #[trigger] self.0.reads(resolved.0, before, values.0, c1)
                &&& #[trigger] self.1.reads(resolved.1, c1, values.1, c2)
                &&& #[trigger] self.2.reads(resolved.2, c2, values.2, after)
            }
    }

    fn resolve_all(&self, context: &mut TemplateContext<'_, V, B>) -> (resolved: Result<
        (S0::Resolved, S1::Resolved, S2::Resolved),
        TemplateError,
    >) {
        let ghost before = context@;
        let mut failure: Option<TemplateError> = None;
        let x0 = resolve_next(&self.0, &mut failure, context);
        let ghost (f1, c1) = (failure, context@);
        let x1 = resolve_next(&self.1, &mut failure, context);
        let ghost (f2, c2) = (failure, context@);
        let x2 = resolve_next(&self.2, &mut failure, context);
        let ghost (f3, c3) = (failure, context@);
        proof {
            assert(resolves_next(self.0, None, before, x0, f1, c1));
            assert(resolves_next(self.1, f1, c1, x1, f2, c2));
            assert(resolves_next(self.2, f2, c2, x2, f3, c3));
        }
        match failure {
            Some(error) => Err(error),
            None => Ok((x0.unwrap(), x1.unwrap(), x2.unwrap())),
        }
    }

    fn read_all(
        &self,
        resolved: &(S0::Resolved, S1::Resolved, S2::Resolved),
        context: &mut EffectContext<'_, V, B>,
    ) -> (values: (S0::Output, S1::Output, S2::Output)) {
        let ghost before = context@;
        let v0 = self.0.read(&resolved.0, context);
        let ghost c1 = context@;
        let v1 = self.1.read(&resolved.1, context);
        let ghost c2 = context@;
        let v2 = self.2.read(&resolved.2, context);
        let ghost c3 = context@;
        let values = (v0, v1, v2);
        proof {
            assert(self.0.reads(resolved.0, before, values.0, c1));
            assert(self.1.reads(resolved.1, c1, values.1, c2));
            assert(self.2.reads(resolved.2, c2, values.2, c3));
        }
        values
    }
}

impl<S0: SourceTypes, S1: SourceTypes, S2: SourceTypes, S3: SourceTypes> SourcesTypes for (S0, S1, S2, S3) {
    type Output = (S0::Output, S1::Output, S2::Output, S3::Output);

    type Resolved = (S0::Resolved, S1::Resolved, S2::Resolved, S3::Resolved);
}

impl<V, B, S0: ReactiveSource<V, B>, S1: ReactiveSource<V, B>, S2: ReactiveSource<V, B>, S3: ReactiveSource<V, B>> ReactiveSources<V, B> for (S0, S1, S2, S3) {
    open spec fn resolves_all(
        &self,
        before: TemplateState<V, B>,
        resolved: Result<(S0::Resolved, S1::Resolved, S2::Resolved, S3::Resolved), TemplateError>,
        after: TemplateState<V, B>,
    ) -> bool {
        exists|
            x0: Option<S0::Resolved>,
            f1: Option<TemplateError>,
            c1: TemplateState<V, B>,
            x1: Option<S1::Resolved>,
            f2: Option<TemplateError>,
            c2: TemplateState<V, B>,
            x2: Option<S2::Resolved>,
            f3: Option<TemplateError>,
            c3: TemplateState<V, B>,
            x3: Option<S3::Resolved>,
            f4: Option<TemplateError>,
        |
            {
                &&& #[trigger] resolves_next(self.0, None, before, x0, f1, c1)
                &&& #[trigger] resolves_next(self.1, f1, c1, x1, f2, c2)
                &&& #[trigger] resolves_next(self.2, f2, c2, x2, f3, c3)
                &&& #[trigger] resolves_next(self.3, f3, c3, x3, f4, after)
                &&& resolved == match f4 {
                    Some(error) => Err(error),
                    None => Ok((x0->0, x1->0, x2->0, x3->0)),
                }
            }
    }

    open spec fn reads_all(
        &self,
        resolved: (S0::Resolved, S1::Resolved, S2::Resolved, S3::Resolved),
        before: ContextState<V, B>,
        values: (S0::Output, S1::Output, S2::Output, S3::Output),
        after: ContextState<V, B>,
    ) -> bool {
        exists|
            c1: ContextState<V, B>,
            c2: ContextState<V, B>,
            c3: ContextState<V, B>,
        |
            {
                &&& #[trigger] self.0.reads(resolved.0, before, values.0, c1)
                &&& #[trigger] self.1.reads(resolved.1, c1, values.1, c2)
                &&& #[trigger] self.2.reads(resolved.2, c2, values.2, c3)
                &&& #[trigger] self.3.reads(resolved.3, c3, values.3, after)
            }
    }

    fn resolve_all(&self, context: &mut TemplateContext<'_, V, B>) -> (resolved: Result<
        (S0::Resolved, S1::Resolved, S2::Resolved, S3::Resolved),
        TemplateError,
    >) {
        let ghost before = context@;
        let mut failure: Option<TemplateError> = None;
        let x0 = resolve_next(&self.0, &mut failure, context);
        let ghost (f1, c1) = (failure, context@);
        let x1 = resolve_next(&self.1, &mut failure, context);
        let ghost (f2, c2) = (failure, context@);
        let x2 = resolve_next(&self.2, &mut failure, context);
        let ghost (f3, c3) = (failure, context@);
        let x3 = resolve_next(&self.3, &mut failure, context);
        let ghost (f4, c4) = (failure, context@);
        proof {
            assert(resolves_next(self.0, None, before, x0, f1, c1));
            assert(resolves_next(self.1, f1, c1, x1, f2, c2));
            assert(resolves_next(self.2, f2, c2, x2, f3, c3));
            assert(resolves_next(self.3, f3, c3, x3, f4, c4));
        }
        match failure {
            Some(error) => Err(error),
            None => Ok((x0.unwrap(), x1.unwrap(), x2.unwrap(), x3.unwrap())),
        }
    }

    fn read_all(
        &self,
        resolved: &(S0::Resolved, S1::Resolved, S2::Resolved, S3::Resolved),
        context: &mut EffectContext<'_, V, B>,
    ) -> (values: (S0::Output, S1::Output, S2::Output, S3::Output)) {
        let ghost before = context@;
        let v0 = self.0.read(&resolved.0, context);
        let ghost c1 = context@;
        let v1 = self.1.read(&resolved.1, context);
        let ghost c2 = context@;
        let v2 = self.2.read(&resolved.2, context);
        let ghost c3 = context@;
        let v3 = self.3.read(&resolved.3, context);
        let ghost c4 = context@;
        let values = (v0, v1, v2, v3);
        proof {
            assert(self.0.reads(resolved.0, before, values.0, c1));
            assert(self.1.reads(resolved.1, c1, values.1, c2));
            assert(self.2.reads(resolved.2, c2, values.2, c3));
            assert(self.3.reads(resolved.3, c3, values.3, c4));
        }
        values
    }
}

impl<S0: SourceTypes, S1: SourceTypes, S2: SourceTypes, S3: SourceTypes, S4: SourceTypes> SourcesTypes for (S0, S1, S2, S3, S4) {
    type Output = (S0::Output, S1::Output, S2::Output, S3::Output, S4::Output);

    type Resolved = (S0::Resolved, S1::Resolved, S2::Resolved, S3::Resolved, S4::Resolved);
}

impl<V, B, S0: ReactiveSource<V, B>, S1: ReactiveSource<V, B>, S2: ReactiveSource<V, B>, S3: ReactiveSource<V, B>, S4: ReactiveSource<V, B>> ReactiveSources<V, B> for (S0, S1, S2, S3, S4) {
    open spec fn resolves_all(
        &self,
        before: TemplateState<V, B>,
        resolved: Result<(S0::Resolved, S1::Resolved, S2::Resolved, S3::Resolved, S4::Resolved), TemplateError>,
        after: TemplateState<V, B>,
    ) -> bool {
        exists|
            x0: Option<S0::Resolved>,
            f1: Option<TemplateError>,
            c1: TemplateState<V, B>,
            x1: Option<S1::Resolved>,
            f2: Option<TemplateError>,
            c2: TemplateState<V, B>,
            x2: Option<S2::Resolved>,
            f3: Option<TemplateError>,
            c3: TemplateState<V, B>,
            x3: Option<S3::Resolved>,
            f4: Option<TemplateError>,
            c4: TemplateState<V, B>,
            x4: Option<S4::Resolved>,
            f5: Option<TemplateError>,
        |
            {
                &&& #[trigger] resolves_next(self.0, None, before, x0, f1, c1)
                &&& #[trigger] resolves_next(self.1, f1, c1, x1, f2, c2)
                &&& #[trigger] resolves_next(self.2, f2, c2, x2, f3, c3)
                &&& #[trigger] resolves_next(self.3, f3, c3, x3, f4, c4)
                &&& #[trigger] resolves_next(self.4, f4, c4, x4, f5, after)
                &&& resolved == match f5 {
                    Some(error) => Err(error),
                    None => Ok((x0->0, x1->0, x2->0, x3->0, x4->0)),
                }
            }
    }

    open spec fn reads_all(
        &self,
        resolved: (S0::Resolved, S1::Resolved, S2::Resolved, S3::Resolved, S4::Resolved),
        before: ContextState<V, B>,
        values: (S0::Output, S1::Output, S2::Output, S3::Output, S4::Output),
        after: ContextState<V, B>,
    ) -> bool {
        exists|
            c1: ContextState<V, B>,
            c2: ContextState<V, B>,
            c3: ContextState<V, B>,
            c4: ContextState<V, B>,
        |
            {
                &&& #[trigger] self.0.reads(resolved.0, before, values.0, c1)
                &&& #[trigger] self.1.reads(resolved.1, c1, values.1, c2)
                &&& #[trigger] self.2.reads(resolved.2, c2, values.2, c3)
                &&& #[trigger] self.3.reads(resolved.3, c3, values.3, c4)
                &&& #[trigger] self.4.reads(resolved.4, c4, values.4, after)
            }
    }

    fn resolve_all(&self, context: &mut TemplateContext<'_, V, B>) -> (resolved: Result<
        (S0::Resolved, S1::Resolved, S2::Resolved, S3::Resolved, S4::Resolved),
        TemplateError,
    >) {
        let ghost before = context@;
        let mut failure: Option<TemplateError> = None;
        let x0 = resolve_next(&self.0, &mut failure, context);
        let ghost (f1, c1) = (failure, context@);
        let x1 = resolve_next(&self.1, &mut failure, context);
        let ghost (f2, c2) = (failure, context@);
        let x2 = resolve_next(&self.2, &mut failure, context);
        let ghost (f3, c3) = (failure, context@);
        let x3 = resolve_next(&self.3, &mut failure, context);
        let ghost (f4, c4) = (failure, context@);
        let x4 = resolve_next(&self.4, &mut failure, context);
        let ghost (f5, c5) = (failure, context@);
        proof {
            assert(resolves_next(self.0, None, before, x0, f1, c1));
            assert(resolves_next(self.1, f1, c1, x1, f2, c2));
            assert(resolves_next(self.2, f2, c2, x2, f3, c3));
            assert(resolves_next(self.3, f3, c3, x3, f4, c4));
            assert(resolves_next(self.4, f4, c4, x4, f5, c5));
        }
        match failure {
            Some(error) => Err(error),
            None => Ok((x0.unwrap(), x1.unwrap(), x2.unwrap(), x3.unwrap(), x4.unwrap())),
        }
    }

    fn read_all(
        &self,
        resolved: &(S0::Resolved, S1::Resolved, S2::Resolved, S3::Resolved, S4::Resolved),
        context: &mut EffectContext<'_, V, B>,
    ) -> (values: (S0::Output, S1::Output, S2::Output, S3::Output, S4::Output)) {
        let ghost before = context@;
        let v0 = self.0.read(&resolved.0, context);
        let ghost c1 = context@;
        let v1 = self.1.read(&resolved.1, context);
        let ghost c2 = context@;
        let v2 = self.2.read(&resolved.2, context);
        let ghost c3 = context@;
        let v3 = self.3.read(&resolved.3, context);
        let ghost c4 = context@;
        let v4 = self.4.read(&resolved.4, context);
        let ghost c5 = context@;
        let values = (v0, v1, v2, v3, v4);
        proof {
            assert(self.0.reads(resolved.0, before, values.0, c1));
            assert(self.1.reads(resolved.1, c1, values.1, c2));
            assert(self.2.reads(resolved.2, c2, values.2, c3));
            assert(self.3.reads(resolved.3, c3, values.3, c4));
            assert(self.4.reads(resolved.4, c4, values.4, c5));
        }
        values
    }
}

impl<S0: SourceTypes, S1: SourceTypes, S2: SourceTypes, S3: SourceTypes, S4: SourceTypes, S5: SourceTypes> SourcesTypes for (S0, S1, S2, S3, S4, S5) {
    type Output = (S0::Output, S1::Output, S2::Output, S3::Output, S4::Output, S5::Output);

    type Resolved = (S0::Resolved, S1::Resolved, S2::Resolved, S3::Resolved, S4::Resolved, S5::Resolved);
}

impl<V, B, S0: ReactiveSource<V, B>, S1: ReactiveSource<V, B>, S2: ReactiveSource<V, B>, S3: ReactiveSource<V, B>, S4: ReactiveSource<V, B>, S5: ReactiveSource<V, B>> ReactiveSources<V, B> for (S0, S1, S2, S3, S4, S5) {
    open spec fn resolves_all(
        &self,
        before: TemplateState<V, B>,
        resolved: Result<(S0::Resolved, S1::Resolved, S2::Resolved, S3::Resolved, S4::Resolved, S5::Resolved), TemplateError>,
        after: TemplateState<V, B>,
    ) -> bool {
        exists|
            x0: Option<S0::Resolved>,
            f1: Option<TemplateError>,
            c1: TemplateState<V, B>,
            x1: Option<S1::Resolved>,
            f2: Option<TemplateError>,
            c2: TemplateState<V, B>,
            x2: Option<S2::Resolved>,
            f3: Option<TemplateError>,
            c3: TemplateState<V, B>,
            x3: Option<S3::Resolved>,
            f4: Option<TemplateError>,
            c4: TemplateState<V, B>,
            x4: Option<S4::Resolved>,
            f5: Option<TemplateError>,
            c5: TemplateState<V, B>,
            x5: Option<S5::Resolved>,
            f6: Option<TemplateError>,
        |
            {
                &&& #[trigger] resolves_next(self.0, None, before, x0, f1, c1)
                &&& #[trigger] resolves_next(self.1, f1, c1, x1, f2, c2)
                &&& #[trigger] resolves_next(self.2, f2, c2, x2, f3, c3)
                &&& #[trigger] resolves_next(self.3, f3, c3, x3, f4, c4)
                &&& #[trigger] resolves_next(self.4, f4, c4, x4, f5, c5)
                &&& #[trigger] resolves_next(self.5, f5, c5, x5, f6, after)
                &&& resolved == match f6 {
                    Some(error) => Err(error),
                    None => Ok((x0->0, x1->0, x2->0, x3->0, x4->0, x5->0)),
                }
            }
    }

    open spec fn reads_all(
        &self,
        resolved: (S0::Resolved, S1::Resolved, S2::Resolved, S3::Resolved, S4::Resolved, S5::Resolved),
        before: ContextState<V, B>,
        values: (S0::Output, S1::Output, S2::Output, S3::Output, S4::Output, S5::Output),
        after: ContextState<V, B>,
    ) -> bool {
        exists|
            c1: ContextState<V, B>,
            c2: ContextState<V, B>,
            c3: ContextState<V, B>,
            c4: ContextState<V, B>,
            c5: ContextState<V, B>,
        |
            {
                &&& #[trigger] self.0.reads(resolved.0, before, values.0, c1)
                &&& #[trigger] self.1.reads(resolved.1, c1, values.1, c2)
                &&& #[trigger] self.2.reads(resolved.2, c2, values.2, c3)
                &&& #[trigger] self.3.reads(resolved.3, c3, values.3, c4)
                &&& #[trigger] self.4.reads(resolved.4, c4, values.4, c5)
                &&& #[trigger] self.5.reads(resolved.5, c5, values.5, after)
            }
    }

    fn resolve_all(&self, context: &mut TemplateContext<'_, V, B>) -> (resolved: Result<
        (S0::Resolved, S1::Resolved, S2::Resolved, S3::Resolved, S4::Resolved, S5::Resolved),
        TemplateError,
    >) {
        let ghost before = context@;
        let mut failure: Option<TemplateError> = None;
        let x0 = resolve_next(&self.0, &mut failure, context);
        let ghost (f1, c1) = (failure, context@);
        let x1 = resolve_next(&self.1, &mut failure, context);
        let ghost (f2, c2) = (failure, context@);
        let x2 = resolve_next(&self.2, &mut failure, context);
        let ghost (f3, c3) = (failure, context@);
        let x3 = resolve_next(&self.3, &mut failure, context);
        let ghost (f4, c4) = (failure, context@);
        let x4 = resolve_next(&self.4, &mut failure, context);
        let ghost (f5, c5) = (failure, context@);
        let x5 = resolve_next(&self.5, &mut failure, context);
        let ghost (f6, c6) = (failure, context@);
        proof {
            assert(resolves_next(self.0, None, before, x0, f1, c1));
            assert(resolves_next(self.1, f1, c1, x1, f2, c2));
            assert(resolves_next(self.2, f2, c2, x2, f3, c3));
            assert(resolves_next(self.3, f3, c3, x3, f4, c4));
            assert(resolves_next(self.4, f4, c4, x4, f5, c5));
            assert(resolves_next(self.5, f5, c5, x5, f6, c6));
        }
        match failure {
            Some(error) => Err(error),
            None => Ok((x0.unwrap(), x1.unwrap(), x2.unwrap(), x3.unwrap(), x4.unwrap(), x5.unwrap())),
        }
    }

    fn read_all(
        &self,
        resolved: &(S0::Resolved, S1::Resolved, S2::Resolved, S3::Resolved, S4::Resolved, S5::Resolved),
        context: &mut EffectContext<'_, V, B>,
    ) -> (values: (S0::Output, S1::Output, S2::Output, S3::Output, S4::Output, S5::Output)) {
        let ghost before = context@;
        let v0 = self.0.read(&resolved.0, context);
        let ghost c1 = context@;
        let v1 = self.1.read(&resolved.1, context);
        let ghost c2 = context@;
        let v2 = self.2.read(&resolved.2, context);
        let ghost c3 = context@;
        let v3 = self.3.read(&resolved.3, context);
        let ghost c4 = context@;
        let v4 = self.4.read(&resolved.4, context);
        let ghost c5 = context@;
        let v5 = self.5.read(&resolved.5, context);
        let ghost c6 = context@;
        let values = (v0, v1, v2, v3, v4, v5);
        proof {
            assert(self.0.reads(resolved.0, before, values.0, c1));
            assert(self.1.reads(resolved.1, c1, values.1, c2));
            assert(self.2.reads(resolved.2, c2, values.2, c3));
            assert(self.3.reads(resolved.3, c3, values.3, c4));
            assert(self.4.reads(resolved.4, c4, values.4, c5));
            assert(self.5.reads(resolved.5, c5, values.5, c6));
        }
        values
    }
}

impl<S0: SourceTypes, S1: SourceTypes, S2: SourceTypes, S3: SourceTypes, S4: SourceTypes, S5: SourceTypes, S6: SourceTypes> SourcesTypes for (S0, S1, S2, S3, S4, S5, S6) {
    type Output = (S0::Output, S1::Output, S2::Output, S3::Output, S4::Output, S5::Output, S6::Output);

    type Resolved = (S0::Resolved, S1::Resolved, S2::Resolved, S3::Resolved, S4::Resolved, S5::Resolved, S6::Resolved);
}

impl<V, B, S0: ReactiveSource<V, B>, S1: ReactiveSource<V, B>, S2: ReactiveSource<V, B>, S3: ReactiveSource<V, B>, S4: ReactiveSource<V, B>, S5: ReactiveSource<V, B>, S6: ReactiveSource<V, B>> ReactiveSources<V, B> for (S0, S1, S2, S3, S4, S5, S6) {
    open spec fn resolves_all(
        &self,
        before: TemplateState<V, B>,
        resolved: Result<(S0::Resolved, S1::Resolved, S2::Resolved, S3::Resolved, S4::Resolved, S5::Resolved, S6::Resolved), TemplateError>,
        after: TemplateState<V, B>,
    ) -> bool {
        exists|
            x0: Option<S0::Resolved>,
            f1: Option<TemplateError>,
            c1: TemplateState<V, B>,
            x1: Option<S1::Resolved>,
            f2: Option<TemplateError>,
            c2: TemplateState<V, B>,
            x2: Option<S2::Resolved>,
            f3: Option<TemplateError>,
            c3: TemplateState<V, B>,
            x3: Option<S3::Resolved>,
            f4: Option<TemplateError>,
            c4: TemplateState<V, B>,
            x4: Option<S4::Resolved>,
            f5: Option<TemplateError>,
            c5: TemplateState<V, B>,
            x5: Option<S5::Resolved>,
            f6: Option<TemplateError>,
            c6: TemplateState<V, B>,
            x6: Option<S6::Resolved>,
            f7: Option<TemplateError>,
        |
            {
                &&& #[trigger] resolves_next(self.0, None, before, x0, f1, c1)
                &&& #[trigger] resolves_next(self.1, f1, c1, x1, f2, c2)
                &&& #[trigger] resolves_next(self.2, f2, c2, x2, f3, c3)
                &&& #[trigger] resolves_next(self.3, f3, c3, x3, f4, c4)
                &&& #[trigger] resolves_next(self.4, f4, c4, x4, f5, c5)
                &&& #[trigger] resolves_next(self.5, f5, c5, x5, f6, c6)
                &&& #[trigger] resolves_next(self.6, f6, c6, x6, f7, after)
                &&& resolved == match f7 {
                    Some(error) => Err(error),
                    None => Ok((x0->0, x1->0, x2->0, x3->0, x4->0, x5->0, x6->0)),
                }
            }
    }

    open spec fn reads_all(
        &self,
        resolved: (S0::Resolved, S1::Resolved, S2::Resolved, S3::Resolved, S4::Resolved, S5::Resolved, S6::Resolved),
        before: ContextState<V, B>,
        values: (S0::Output, S1::Output, S2::Output, S3::Output, S4::Output, S5::Output, S6::Output),
        after: ContextState<V, B>,
    ) -> bool {
        exists|
            c1: ContextState<V, B>,
            c2: ContextState<V, B>,
            c3: ContextState<V, B>,
            c4: ContextState<V, B>,
            c5: ContextState<V, B>,
            c6: ContextState<V, B>,
        |
            {
                &&& #[trigger] self.0.reads(resolved.0, before, values.0, c1)
                &&& #[trigger] self.1.reads(resolved.1, c1, values.1, c2)
                &&& #[trigger] self.2.reads(resolved.2, c2, values.2, c3)
                &&& #[trigger] self.3.reads(resolved.3, c3, values.3, c4)
                &&& #[trigger] self.4.reads(resolved.4, c4, values.4, c5)
                &&& #[trigger] self.5.reads(resolved.5, c5, values.5, c6)
                &&& #[trigger] self.6.reads(resolved.6, c6, values.6, after)
            }
    }

    fn resolve_all(&self, context: &mut TemplateContext<'_, V, B>) -> (resolved: Result<
        (S0::Resolved, S1::Resolved, S2::Resolved, S3::Resolved, S4::Resolved, S5::Resolved, S6::Resolved),
        TemplateError,
    >) {
        let ghost before = context@;
        let mut failure: Option<TemplateError> = None;
        let x0 = resolve_next(&self.0, &mut failure, context);
        let ghost (f1, c1) = (failure, context@);
        let x1 = resolve_next(&self.1, &mut failure, context);
        let ghost (f2, c2) = (failure, context@);
        let x2 = resolve_next(&self.2, &mut failure, context);
        let ghost (f3, c3) = (failure, context@);
        let x3 = resolve_next(&self.3, &mut failure, context);
        let ghost (f4, c4) = (failure, context@);
        let x4 = resolve_next(&self.4, &mut failure, context);
        let ghost (f5, c5) = (failure, context@);
        let x5 = resolve_next(&self.5, &mut failure, context);
        let ghost (f6, c6) = (failure, context@);
        let x6 = resolve_next(&self.6, &mut failure, context);
        let ghost (f7, c7) = (failure, context@);
        proof {
            assert(resolves_next(self.0, None, before, x0, f1, c1));
            assert(resolves_next(self.1, f1, c1, x1, f2, c2));
            assert(resolves_next(self.2, f2, c2, x2, f3, c3));
            assert(resolves_next(self.3, f3, c3, x3, f4, c4));
            assert(resolves_next(self.4, f4, c4, x4, f5, c5));
            assert(resolves_next(self.5, f5, c5, x5, f6, c6));
            assert(resolves_next(self.6, f6, c6, x6, f7, c7));
        }
        match failure {
            Some(error) => Err(error),
            None => Ok((x0.unwrap(), x1.unwrap(), x2.unwrap(), x3.unwrap(), x4.unwrap(), x5.unwrap(), x6.unwrap())),
        }
    }

    fn read_all(
        &self,
        resolved: &(S0::Resolved, S1::Resolved, S2::Resolved, S3::Resolved, S4::Resolved, S5::Resolved, S6::Resolved),
        context: &mut EffectContext<'_, V, B>,
    ) -> (values: (S0::Output, S1::Output, S2::Output, S3::Output, S4::Output, S5::Output, S6::Output)) {
        let ghost before = context@;
        let v0 = self.0.read(&resolved.0, context);
        let ghost c1 = context@;
        let v1 = self.1.read(&resolved.1, context);
        let ghost c2 = context@;
        let v2 = self.2.read(&resolved.2, context);
        let ghost c3 = context@;
        let v3 = self.3.read(&resolved.3, context);
        let ghost c4 = context@;
        let v4 = self.4.read(&resolved.4, context);
        let ghost c5 = context@;
        let v5 = self.5.read(&resolved.5, context);
        let ghost c6 = context@;
        let v6 = self.6.read(&resolved.6, context);
        let ghost c7 = context@;
        let values = (v0, v1, v2, v3, v4, v5, v6);
        proof {
            assert(self.0.reads(resolved.0, before, values.0, c1));
            assert(self.1.reads(resolved.1, c1, values.1, c2));
            assert(self.2.reads(resolved.2, c2, values.2, c3));
            assert(self.3.reads(resolved.3, c3, values.3, c4));
            assert(self.4.reads(resolved.4, c4, values.4, c5));
            assert(self.5.reads(resolved.5, c5, values.5, c6));
            assert(self.6.reads(resolved.6, c6, values.6, c7));
        }
        values
    }
}

impl<S0: SourceTypes, S1: SourceTypes, S2: SourceTypes, S3: SourceTypes, S4: SourceTypes, S5: SourceTypes, S6: SourceTypes, S7: SourceTypes> SourcesTypes for (S0, S1, S2, S3, S4, S5, S6, S7) {
    type Output = (S0::Output, S1::Output, S2::Output, S3::Output, S4::Output, S5::Output, S6::Output, S7::Output);

    type Resolved = (S0::Resolved, S1::Resolved, S2::Resolved, S3::Resolved, S4::Resolved, S5::Resolved, S6::Resolved, S7::Resolved);
}

impl<V, B, S0: ReactiveSource<V, B>, S1: ReactiveSource<V, B>, S2: ReactiveSource<V, B>, S3: ReactiveSource<V, B>, S4: ReactiveSource<V, B>, S5: ReactiveSource<V, B>, S6: ReactiveSource<V, B>, S7: ReactiveSource<V, B>> ReactiveSources<V, B> for (S0, S1, S2, S3, S4, S5, S6, S7) {
    open spec fn resolves_all(
        &self,
        before: TemplateState<V, B>,
        resolved: Result<(S0::Resolved, S1::Resolved, S2::Resolved, S3::Resolved, S4::Resolved, S5::Resolved, S6::Resolved, S7::Resolved), TemplateError>,
        after: TemplateState<V, B>,
    ) -> bool {
        exists|
            x0: Option<S0::Resolved>,
            f1: Option<TemplateError>,
            c1: TemplateState<V, B>,
            x1: Option<S1::Resolved>,
            f2: Option<TemplateError>,
            c2: TemplateState<V, B>,
            x2: Option<S2::Resolved>,
            f3: Option<TemplateError>,
            c3: TemplateState<V, B>,
            x3: Option<S3::Resolved>,
            f4: Option<TemplateError>,
            c4: TemplateState<V, B>,
            x4: Option<S4::Resolved>,
            f5: Option<TemplateError>,
            c5: TemplateState<V, B>,
            x5: Option<S5::Resolved>,
            f6: Option<TemplateError>,
            c6: TemplateState<V, B>,
            x6: Option<S6::Resolved>,
            f7: Option<TemplateError>,
            c7: TemplateState<V, B>,
            x7: Option<S7::Resolved>,
            f8: Option<TemplateError>,
        |
            {
                &&& #[trigger] resolves_next(self.0, None, before, x0, f1, c1)
                &&& #[trigger] resolves_next(self.1, f1, c1, x1, f2, c2)
                &&& #[trigger] resolves_next(self.2, f2, c2, x2, f3, c3)
                &&& #[trigger] resolves_next(self.3, f3, c3, x3, f4, c4)
                &&& #[trigger] resolves_next(self.4, f4, c4, x4, f5, c5)
                &&& #[trigger] resolves_next(self.5, f5, c5, x5, f6, c6)
                &&& #[trigger] resolves_next(self.6, f6, c6, x6, f7, c7)
                &&& #[trigger] resolves_next(self.7, f7, c7, x7, f8, after)
                &&& resolved == match f8 {
                    Some(error) => Err(error),
                    None => Ok((x0->0, x1->0, x2->0, x3->0, x4->0, x5->0, x6->0, x7->0)),
                }
            }
    }

    open spec fn reads_all(
        &self,
        resolved: (S0::Resolved, S1::Resolved, S2::Resolved, S3::Resolved, S4::Resolved, S5::Resolved, S6::Resolved, S7::Resolved),
        before: ContextState<V, B>,
        values: (S0::Output, S1::Output, S2::Output, S3::Output, S4::Output, S5::Output, S6::Output, S7::Output),
        after: ContextState<V, B>,
    ) -> bool {
        exists|
            c1: ContextState<V, B>,
            c2: ContextState<V, B>,
            c3: ContextState<V, B>,
            c4: ContextState<V, B>,
            c5: ContextState<V, B>,
            c6: ContextState<V, B>,
            c7: ContextState<V, B>,
        |
            {
                &&& #[trigger] self.0.reads(resolved.0, before, values.0, c1)
                &&& #[trigger] self.1.reads(resolved.1, c1, values.1, c2)
                &&& #[trigger] self.2.reads(resolved.2, c2, values.2, c3)
                &&& #[trigger] self.3.reads(resolved.3, c3, values.3, c4)
                &&& #[trigger] self.4.reads(resolved.4, c4, values.4, c5)
                &&& #[trigger] self.5.reads(resolved.5, c5, values.5, c6)
                &&& #[trigger] self.6.reads(resolved.6, c6, values.6, c7)
                &&& #[trigger] self.7.reads(resolved.7, c7, values.7, after)
            }
    }

    fn resolve_all(&self, context: &mut TemplateContext<'_, V, B>) -> (resolved: Result<
        (S0::Resolved, S1::Resolved, S2::Resolved, S3::Resolved, S4::Resolved, S5::Resolved, S6::Resolved, S7::Resolved),
        TemplateError,
    >) {
        let ghost before = context@;
        let mut failure: Option<TemplateError> = None;
        let x0 = resolve_next(&self.0, &mut failure, context);
        let ghost (f1, c1) = (failure, context@);
        let x1 = resolve_next(&self.1, &mut failure, context);
        let ghost (f2, c2) = (failure, context@);
        let x2 = resolve_next(&self.2, &mut failure, context);
        let ghost (f3, c3) = (failure, context@);
        let x3 = resolve_next(&self.3, &mut failure, context);
        let ghost (f4, c4) = (failure, context@);
        let x4 = resolve_next(&self.4, &mut failure, context);
        let ghost (f5, c5) = (failure, context@);
        let x5 = resolve_next(&self.5, &mut failure, context);
        let ghost (f6, c6) = (failure, context@);
        let x6 = resolve_next(&self.6, &mut failure, context);
        let ghost (f7, c7) = (failure, context@);
        let x7 = resolve_next(&self.7, &mut failure, context);
        let ghost (f8, c8) = (failure, context@);
        proof {
            assert(resolves_next(self.0, None, before, x0, f1, c1));
            assert(resolves_next(self.1, f1, c1, x1, f2, c2));
            assert(resolves_next(self.2, f2, c2, x2, f3, c3));
            assert(resolves_next(self.3, f3, c3, x3, f4, c4));
            assert(resolves_next(self.4, f4, c4, x4, f5, c5));
            assert(resolves_next(self.5, f5, c5, x5, f6, c6));
            assert(resolves_next(self.6, f6, c6, x6, f7, c7));
            assert(resolves_next(self.7, f7, c7, x7, f8, c8));
        }
        match failure {
            Some(error) => Err(error),
            None => Ok((x0.unwrap(), x1.unwrap(), x2.unwrap(), x3.unwrap(), x4.unwrap(), x5.unwrap(), x6.unwrap(), x7.unwrap())),
        }
    }

    fn read_all(
        &self,
        resolved: &(S0::Resolved, S1::Resolved, S2::Resolved, S3::Resolved, S4::Resolved, S5::Resolved, S6::Resolved, S7::Resolved),
        context: &mut EffectContext<'_, V, B>,
    ) -> (values: (S0::Output, S1::Output, S2::Output, S3::Output, S4::Output, S5::Output, S6::Output, S7::Output)) {
        let ghost before = context@;
        let v0 = self.0.read(&resolved.0, context);
        let ghost c1 = context@;
        let v1 = self.1.read(&resolved.1, context);
        let ghost c2 = context@;
        let v2 = self.2.read(&resolved.2, context);
        let ghost c3 = context@;
        let v3 = self.3.read(&resolved.3, context);
        let ghost c4 = context@;
        let v4 = self.4.read(&resolved.4, context);
        let ghost c5 = context@;
        let v5 = self.5.read(&resolved.5, context);
        let ghost c6 = context@;
        let v6 = self.6.read(&resolved.6, context);
        let ghost c7 = context@;
        let v7 = self.7.read(&resolved.7, context);
        let ghost c8 = context@;
        let values = (v0, v1, v2, v3, v4, v5, v6, v7);
        proof {
            assert(self.0.reads(resolved.0, before, values.0, c1));
            assert(self.1.reads(resolved.1, c1, values.1, c2));
            assert(self.2.reads(resolved.2, c2, values.2, c3));
            assert(self.3.reads(resolved.3, c3, values.3, c4));
            assert(self.4.reads(resolved.4, c4, values.4, c5));
            assert(self.5.reads(resolved.5, c5, values.5, c6));
            assert(self.6.reads(resolved.6, c6, values.6, c7));
            assert(self.7.reads(resolved.7, c7, values.7, c8));
        }
        values
    }
}

impl<S0: SourceTypes, S1: SourceTypes, S2: SourceTypes, S3: SourceTypes, S4: SourceTypes, S5: SourceTypes, S6: SourceTypes, S7: SourceTypes, S8: SourceTypes> SourcesTypes for (S0, S1, S2, S3, S4, S5, S6, S7, S8) {
    type Output = (S0::Output, S1::Output, S2::Output, S3::Output, S4::Output, S5::Output, S6::Output, S7::Output, S8::Output);

    type Resolved = (S0::Resolved, S1::Resolved, S2::Resolved, S3::Resolved, S4::Resolved, S5::Resolved, S6::Resolved, S7::Resolved, S8::Resolved);
}

impl<V, B, S0: ReactiveSource<V, B>, S1: ReactiveSource<V, B>, S2: ReactiveSource<V, B>, S3: ReactiveSource<V, B>, S4: ReactiveSource<V, B>, S5: ReactiveSource<V, B>, S6: ReactiveSource<V, B>, S7: ReactiveSource<V, B>, S8: ReactiveSource<V, B>> ReactiveSources<V, B> for (S0, S1, S2, S3, S4, S5, S6, S7, S8) {
    open spec fn resolves_all(
        &self,
        before: TemplateState<V, B>,
        resolved: Result<(S0::Resolved, S1::Resolved, S2::Resolved, S3::Resolved, S4::Resolved, S5::Resolved, S6::Resolved, S7::Resolved, S8::Resolved), TemplateError>,
        after: TemplateState<V, B>,
    ) -> bool {
        exists|
            x0: Option<S0::Resolved>,
            f1: Option<TemplateError>,
            c1: TemplateState<V, B>,
            x1: Option<S1::Resolved>,
            f2: Option<TemplateError>,
            c2: TemplateState<V, B>,
            x2: Option<S2::Resolved>,
            f3: Option<TemplateError>,
            c3: TemplateState<V, B>,
            x3: Option<S3::Resolved>,
            f4: Option<TemplateError>,
            c4: TemplateState<V, B>,
            x4: Option<S4::Resolved>,
            f5: Option<TemplateError>,
            c5: TemplateState<V, B>,
            x5: Option<S5::Resolved>,
            f6: Option<TemplateError>,
            c6: TemplateState<V, B>,
            x6: Option<S6::Resolved>,
            f7: Option<TemplateError>,
            c7: TemplateState<V, B>,
            x7: Option<S7::Resolved>,
            f8: Option<TemplateError>,
            c8: TemplateState<V, B>,
            x8: Option<S8::Resolved>,
            f9: Option<TemplateError>,
        |
            {
                &&& #[trigger] resolves_next(self.0, None, before, x0, f1, c1)
                &&& #[trigger] resolves_next(self.1, f1, c1, x1, f2, c2)
                &&& #[trigger] resolves_next(self.2, f2, c2, x2, f3, c3)
                &&& #[trigger] resolves_next(self.3, f3, c3, x3, f4, c4)
                &&& #[trigger] resolves_next(self.4, f4, c4, x4, f5, c5)
                &&& #[trigger] resolves_next(self.5, f5, c5, x5, f6, c6)
                &&& #[trigger] resolves_next(self.6, f6, c6, x6, f7, c7)
                &&& #[trigger] resolves_next(self.7, f7, c7, x7, f8, c8)
                &&& #[trigger] resolves_next(self.8, f8, c8, x8, f9, after)
                &&& resolved == match f9 {
                    Some(error) => Err(error),
                    None => Ok((x0->0, x1->0, x2->0, x3->0, x4->0, x5->0, x6->0, x7->0, x8->0)),
                }
            }
    }

    open spec fn reads_all(
        &self,
        resolved: (S0::Resolved, S1::Resolved, S2::Resolved, S3::Resolved, S4::Resolved, S5::Resolved, S6::Resolved, S7::Resolved, S8::Resolved),
        before: ContextState<V, B>,
        values: (S0::Output, S1::Output, S2::Output, S3::Output, S4::Output, S5::Output, S6::Output, S7::Output, S8::Output),
        after: ContextState<V, B>,
    ) -> bool {
        exists|
            c1: ContextState<V, B>,
            c2: ContextState<V, B>,
            c3: ContextState<V, B>,
            c4: ContextState<V, B>,
            c5: ContextState<V, B>,
            c6: ContextState<V, B>,
            c7: ContextState<V, B>,
            c8: ContextState<V, B>,
        |
            {
                &&& #[trigger] self.0.reads(resolved.0, before, values.0, c1)
                &&& #[trigger] self.1.reads(resolved.1, c1, values.1, c2)
                &&& #[trigger] self.2.reads(resolved.2, c2, values.2, c3)
                &&& #[trigger] self.3.reads(resolved.3, c3, values.3, c4)
                &&& #[trigger] self.4.reads(resolved.4, c4, values.4, c5)
                &&& #[trigger] self.5.reads(resolved.5, c5, values.5, c6)
                &&& #[trigger] self.6.reads(resolved.6, c6, values.6, c7)
                &&& #[trigger] self.7.reads(resolved.7, c7, values.7, c8)
                &&& #[trigger] self.8.reads(resolved.8, c8, values.8, after)
            }
    }

    fn resolve_all(&self, context: &mut TemplateContext<'_, V, B>) -> (resolved: Result<
        (S0::Resolved, S1::Resolved, S2::Resolved, S3::Resolved, S4::Resolved, S5::Resolved, S6::Resolved, S7::Resolved, S8::Resolved),
        TemplateError,
    >) {
        let ghost before = context@;
        let mut failure: Option<TemplateError> = None;
        let x0 = resolve_next(&self.0, &mut failure, context);
        let ghost (f1, c1) = (failure, context@);
        let x1 = resolve_next(&self.1, &mut failure, context);
        let ghost (f2, c2) = (failure, context@);
        let x2 = resolve_next(&self.2, &mut failure, context);
        let ghost (f3, c3) = (failure, context@);
        let x3 = resolve_next(&self.3, &mut failure, context);
        let ghost (f4, c4) = (failure, context@);
        let x4 = resolve_next(&self.4, &mut failure, context);
        let ghost (f5, c5) = (failure, context@);
        let x5 = resolve_next(&self.5, &mut failure, context);
        let ghost (f6, c6) = (failure, context@);
        let x6 = resolve_next(&self.6, &mut failure, context);
        let ghost (f7, c7) = (failure, context@);
        let x7 = resolve_next(&self.7, &mut failure, context);
        let ghost (f8, c8) = (failure, context@);
        let x8 = resolve_next(&self.8, &mut failure, context);
        let ghost (f9, c9) = (failure, context@);
        proof {
            assert(resolves_next(self.0, None, before, x0, f1, c1));
            assert(resolves_next(self.1, f1, c1, x1, f2, c2));
            assert(resolves_next(self.2, f2, c2, x2, f3, c3));
            assert(resolves_next(self.3, f3, c3, x3, f4, c4));
            assert(resolves_next(self.4, f4, c4, x4, f5, c5));
            assert(resolves_next(self.5, f5, c5, x5, f6, c6));
            assert(resolves_next(self.6, f6, c6, x6, f7, c7));
            assert(resolves_next(self.7, f7, c7, x7, f8, c8));
            assert(resolves_next(self.8, f8, c8, x8, f9, c9));
        }
        match failure {
            Some(error) => Err(error),
            None => Ok((x0.unwrap(), x1.unwrap(), x2.unwrap(), x3.unwrap(), x4.unwrap(), x5.unwrap(), x6.unwrap(), x7.unwrap(), x8.unwrap())),
        }
    }

    fn read_all(
        &self,
        resolved: &(S0::Resolved, S1::Resolved, S2::Resolved, S3::Resolved, S4::Resolved, S5::Resolved, S6::Resolved, S7::Resolved, S8::Resolved),
        context: &mut EffectContext<'_, V, B>,
    ) -> (values: (S0::Output, S1::Output, S2::Output, S3::Output, S4::Output, S5::Output, S6::Output, S7::Output, S8::Output)) {
        let ghost before = context@;
        let v0 = self.0.read(&resolved.0, context);
        let ghost c1 = context@;
        let v1 = self.1.read(&resolved.1, context);
        let ghost c2 = context@;
        let v2 = self.2.read(&resolved.2, context);
        let ghost c3 = context@;
        let v3 = self.3.read(&resolved.3, context);
        let ghost c4 = context@;
        let v4 = self.4.read(&resolved.4, context);
        let ghost c5 = context@;
        let v5 = self.5.read(&resolved.5, context);
        let ghost c6 = context@;
        let v6 = self.6.read(&resolved.6, context);
        let ghost c7 = context@;
        let v7 = self.7.read(&resolved.7, context);
        let ghost c8 = context@;
        let v8 = self.8.read(&resolved.8, context);
        let ghost c9 = context@;
        let values = (v0, v1, v2, v3, v4, v5, v6, v7, v8);
        proof {
            assert(self.0.reads(resolved.0, before, values.0, c1));
            assert(self.1.reads(resolved.1, c1, values.1, c2));
            assert(self.2.reads(resolved.2, c2, values.2, c3));
            assert(self.3.reads(resolved.3, c3, values.3, c4));
            assert(self.4.reads(resolved.4, c4, values.4, c5));
            assert(self.5.reads(resolved.5, c5, values.5, c6));
            assert(self.6.reads(resolved.6, c6, values.6, c7));
            assert(self.7.reads(resolved.7, c7, values.7, c8));
            assert(self.8.reads(resolved.8, c8, values.8, c9));
        }
        values
    }
}

impl<S0: SourceTypes, S1: SourceTypes, S2: SourceTypes, S3: SourceTypes, S4: SourceTypes, S5: SourceTypes, S6: SourceTypes, S7: SourceTypes, S8: SourceTypes, S9: SourceTypes> SourcesTypes for (S0, S1, S2, S3, S4, S5, S6, S7, S8, S9) {
    type Output = (S0::Output, S1::Output, S2::Output, S3::Output, S4::Output, S5::Output, S6::Output, S7::Output, S8::Output, S9::Output);

    type Resolved = (S0::Resolved, S1::Resolved, S2::Resolved, S3::Resolved, S4::Resolved, S5::Resolved, S6::Resolved, S7::Resolved, S8::Resolved, S9::Resolved);
}

impl<V, B, S0: ReactiveSource<V, B>, S1: ReactiveSource<V, B>, S2: ReactiveSource<V, B>, S3: ReactiveSource<V, B>, S4: ReactiveSource<V, B>, S5: ReactiveSource<V, B>, S6: ReactiveSource<V, B>, S7: ReactiveSource<V, B>, S8: ReactiveSource<V, B>, S9: ReactiveSource<V, B>> ReactiveSources<V, B> for (S0, S1, S2, S3, S4, S5, S6, S7, S8, S9) {
    open spec fn resolves_all(
        &self,
        before: TemplateState<V, B>,
        resolved: Result<(S0::Resolved, S1::Resolved, S2::Resolved, S3::Resolved, S4::Resolved, S5::Resolved, S6::Resolved, S7::Resolved, S8::Resolved, S9::Resolved), TemplateError>,
        after: TemplateState<V, B>,
    ) -> bool {
        exists|
            x0: Option<S0::Resolved>,
            f1: Option<TemplateError>,
            c1: TemplateState<V, B>,
            x1: Option<S1::Resolved>,
            f2: Option<TemplateError>,
            c2: TemplateState<V, B>,
            x2: Option<S2::Resolved>,
            f3: Option<TemplateError>,
            c3: TemplateState<V, B>,
            x3: Option<S3::Resolved>,
            f4: Option<TemplateError>,
            c4: TemplateState<V, B>,
            x4: Option<S4::Resolved>,
            f5: Option<TemplateError>,
            c5: TemplateState<V, B>,
            x5: Option<S5::Resolved>,
            f6: Option<TemplateError>,
            c6: TemplateState<V, B>,
            x6: Option<S6::Resolved>,
            f7: Option<TemplateError>,
            c7: TemplateState<V, B>,
            x7: Option<S7::Resolved>,
            f8: Option<TemplateError>,
            c8: TemplateState<V, B>,
            x8: Option<S8::Resolved>,
            f9: Option<TemplateError>,
            c9: TemplateState<V, B>,
            x9: Option<S9::Resolved>,
            f10: Option<TemplateError>,
        |
            {
                &&& #[trigger] resolves_next(self.0, None, before, x0, f1, c1)
                &&& #[trigger] resolves_next(self.1, f1, c1, x1, f2, c2)
                &&& #[trigger] resolves_next(self.2, f2, c2, x2, f3, c3)
                &&& #[trigger] resolves_next(self.3, f3, c3, x3, f4, c4)
                &&& #[trigger] resolves_next(self.4, f4, c4, x4, f5, c5)
                &&& #[trigger] resolves_next(self.5, f5, c5, x5, f6, c6)
                &&& #[trigger] resolves_next(self.6, f6, c6, x6, f7, c7)
                &&& #[trigger] resolves_next(self.7, f7, c7, x7, f8, c8)
                &&& #[trigger] resolves_next(self.8, f8, c8, x8, f9, c9)
                &&& #[trigger] resolves_next(self.9, f9, c9, x9, f10, after)
                &&& resolved == match f10 {
                    Some(error) => Err(error),
                    None => Ok((x0->0, x1->0, x2->0, x3->0, x4->0, x5->0, x6->0, x7->0, x8->0, x9->0)),
                }
            }
    }

    open spec fn reads_all(
        &self,
        resolved: (S0::Resolved, S1::Resolved, S2::Resolved, S3::Resolved, S4::Resolved, S5::Resolved, S6::Resolved, S7::Resolved, S8::Resolved, S9::Resolved),
        before: ContextState<V, B>,
        values: (S0::Output, S1::Output, S2::Output, S3::Output, S4::Output, S5::Output, S6::Output, S7::Output, S8::Output, S9::Output),
        after: ContextState<V, B>,
    ) -> bool {
        exists|
            c1: ContextState<V, B>,
            c2: ContextState<V, B>,
            c3: ContextState<V, B>,
            c4: ContextState<V, B>,
            c5: ContextState<V, B>,
            c6: ContextState<V, B>,
            c7: ContextState<V, B>,
            c8: ContextState<V, B>,
            c9: ContextState<V, B>,
        |
            {
                &&& #[trigger] self.0.reads(resolved.0, before, values.0, c1)
                &&& #[trigger] self.1.reads(resolved.1, c1, values.1, c2)
                &&& #[trigger] self.2.reads(resolved.2, c2, values.2, c3)
                &&& #[trigger] self.3.reads(resolved.3, c3, values.3, c4)
                &&& #[trigger] self.4.reads(resolved.4, c4, values.4, c5)
                &&& #[trigger] self.5.reads(resolved.5, c5, values.5, c6)
                &&& #[trigger] self.6.reads(resolved.6, c6, values.6, c7)
                &&& #[trigger] self.7.reads(resolved.7, c7, values.7, c8)
                &&& #[trigger] self.8.reads(resolved.8, c8, values.8, c9)
                &&& #[trigger] self.9.reads(resolved.9, c9, values.9, after)
            }
    }

    fn resolve_all(&self, context: &mut TemplateContext<'_, V, B>) -> (resolved: Result<
        (S0::Resolved, S1::Resolved, S2::Resolved, S3::Resolved, S4::Resolved, S5::Resolved, S6::Resolved, S7::Resolved, S8::Resolved, S9::Resolved),
        TemplateError,
    >) {
        let ghost before = context@;
        let mut failure: Option<TemplateError> = None;
        let x0 = resolve_next(&self.0, &mut failure, context);
        let ghost (f1, c1) = (failure, context@);
        let x1 = resolve_next(&self.1, &mut failure, context);
        let ghost (f2, c2) = (failure, context@);
        let x2 = resolve_next(&self.2, &mut failure, context);
        let ghost (f3, c3) = (failure, context@);
        let x3 = resolve_next(&self.3, &mut failure, context);
        let ghost (f4, c4) = (failure, context@);
        let x4 = resolve_next(&self.4, &mut failure, context);
        let ghost (f5, c5) = (failure, context@);
        let x5 = resolve_next(&self.5, &mut failure, context);
        let ghost (f6, c6) = (failure, context@);
        let x6 = resolve_next(&self.6, &mut failure, context);
        let ghost (f7, c7) = (failure, context@);
        let x7 = resolve_next(&self.7, &mut failure, context);
        let ghost (f8, c8) = (failure, context@);
        let x8 = resolve_next(&self.8, &mut failure, context);
        let ghost (f9, c9) = (failure, context@);
        let x9 = resolve_next(&self.9, &mut failure, context);
        let ghost (f10, c10) = (failure, context@);
        proof {
            assert(resolves_next(self.0, None, before, x0, f1, c1));
            assert(resolves_next(self.1, f1, c1, x1, f2, c2));
            assert(resolves_next(self.2, f2, c2, x2, f3, c3));
            assert(resolves_next(self.3, f3, c3, x3, f4, c4));
            assert(resolves_next(self.4, f4, c4, x4, f5, c5));
            assert(resolves_next(self.5, f5, c5, x5, f6, c6));
            assert(resolves_next(self.6, f6, c6, x6, f7, c7));
            assert(resolves_next(self.7, f7, c7, x7, f8, c8));
            assert(resolves_next(self.8, f8, c8, x8, f9, c9));
            assert(resolves_next(self.9, f9, c9, x9, f10, c10));
        }
        match failure {
            Some(error) => Err(error),
            None => Ok((x0.unwrap(), x1.unwrap(), x2.unwrap(), x3.unwrap(), x4.unwrap(), x5.unwrap(), x6.unwrap(), x7.unwrap(), x8.unwrap(), x9.unwrap())),
        }
    }

    fn read_all(
        &self,
        resolved: &(S0::Resolved, S1::Resolved, S2::Resolved, S3::Resolved, S4::Resolved, S5::Resolved, S6::Resolved, S7::Resolved, S8::Resolved, S9::Resolved),
        context: &mut EffectContext<'_, V, B>,
    ) -> (values: (S0::Output, S1::Output, S2::Output, S3::Output, S4::Output, S5::Output, S6::Output, S7::Output, S8::Output, S9::Output)) {
        let ghost before = context@;
        let v0 = self.0.read(&resolved.0, context);
        let ghost c1 = context@;
        let v1 = self.1.read(&resolved.1, context);
        let ghost c2 = context@;
        let v2 = self.2.read(&resolved.2, context);
        let ghost c3 = context@;
        let v3 = self.3.read(&resolved.3, context);
        let ghost c4 = context@;
        let v4 = self.4.read(&resolved.4, context);
        let ghost c5 = context@;
        let v5 = self.5.read(&resolved.5, context);
        let ghost c6 = context@;
        let v6 = self.6.read(&resolved.6, context);
        let ghost c7 = context@;
        let v7 = self.7.read(&resolved.7, context);
        let ghost c8 = context@;
        let v8 = self.8.read(&resolved.8, context);
        let ghost c9 = context@;
        let v9 = self.9.read(&resolved.9, context);
        let ghost c10 = context@;
        let values = (v0, v1, v2, v3, v4, v5, v6, v7, v8, v9);
        proof {
            assert(self.0.reads(resolved.0, before, values.0, c1));
            assert(self.1.reads(resolved.1, c1, values.1, c2));
            assert(self.2.reads(resolved.2, c2, values.2, c3));
            assert(self.3.reads(resolved.3, c3, values.3, c4));
            assert(self.4.reads(resolved.4, c4, values.4, c5));
            assert(self.5.reads(resolved.5, c5, values.5, c6));
            assert(self.6.reads(resolved.6, c6, values.6, c7));
            assert(self.7.reads(resolved.7, c7, values.7, c8));
            assert(self.8.reads(resolved.8, c8, values.8, c9));
            assert(self.9.reads(resolved.9, c9, values.9, c10));
        }
        values
    }
}

impl<S0: SourceTypes, S1: SourceTypes, S2: SourceTypes, S3: SourceTypes, S4: SourceTypes, S5: SourceTypes, S6: SourceTypes, S7: SourceTypes, S8: SourceTypes, S9: SourceTypes, S10: SourceTypes> SourcesTypes for (S0, S1, S2, S3, S4, S5, S6, S7, S8, S9, S10) {
    type Output = (S0::Output, S1::Output, S2::Output, S3::Output, S4::Output, S5::Output, S6::Output, S7::Output, S8::Output, S9::Output, S10::Output);

    type Resolved = (S0::Resolved, S1::Resolved, S2::Resolved, S3::Resolved, S4::Resolved, S5::Resolved, S6::Resolved, S7::Resolved, S8::Resolved, S9::Resolved, S10::Resolved);
}

impl<V, B, S0: ReactiveSource<V, B>, S1: ReactiveSource<V, B>, S2: ReactiveSource<V, B>, S3: ReactiveSource<V, B>, S4: ReactiveSource<V, B>, S5: ReactiveSource<V, B>, S6: ReactiveSource<V, B>, S7: ReactiveSource<V, B>, S8: ReactiveSource<V, B>, S9: ReactiveSource<V, B>, S10: ReactiveSource<V, B>> ReactiveSources<V, B> for (S0, S1, S2, S3, S4, S5, S6, S7, S8, S9, S10) {
    open spec fn resolves_all(
        &self,
        before: TemplateState<V, B>,
        resolved: Result<(S0::Resolved, S1::Resolved, S2::Resolved, S3::Resolved, S4::Resolved, S5::Resolved, S6::Resolved, S7::Resolved, S8::Resolved, S9::Resolved, S10::Resolved), TemplateError>,
        after: TemplateState<V, B>,
    ) -> bool {
        exists|
            x0: Option<S0::Resolved>,
            f1: Option<TemplateError>,
            c1: TemplateState<V, B>,
            x1: Option<S1::Resolved>,
            f2: Option<TemplateError>,
            c2: TemplateState<V, B>,
            x2: Option<S2::Resolved>,
            f3: Option<TemplateError>,
            c3: TemplateState<V, B>,
            x3: Option<S3::Resolved>,
            f4: Option<TemplateError>,
            c4: TemplateState<V, B>,
            x4: Option<S4::Resolved>,
            f5: Option<TemplateError>,
            c5: TemplateState<V, B>,
            x5: Option<S5::Resolved>,
            f6: Option<TemplateError>,
            c6: TemplateState<V, B>,
            x6: Option<S6::Resolved>,
            f7: Option<TemplateError>,
            c7: TemplateState<V, B>,
            x7: Option<S7::Resolved>,
            f8: Option<TemplateError>,
            c8: TemplateState<V, B>,
            x8: Option<S8::Resolved>,
            f9: Option<TemplateError>,
            c9: TemplateState<V, B>,
            x9: Option<S9::Resolved>,
            f10: Option<TemplateError>,
            c10: TemplateState<V, B>,
            x10: Option<S10::Resolved>,
            f11: Option<TemplateError>,
        |
            {
                &&& #[trigger] resolves_next(self.0, None, before, x0, f1, c1)
                &&& #[trigger] resolves_next(self.1, f1, c1, x1, f2, c2)
                &&& #[trigger] resolves_next(self.2, f2, c2, x2, f3, c3)
                &&& #[trigger] resolves_next(self.3, f3, c3, x3, f4, c4)
                &&& #[trigger] resolves_next(self.4, f4, c4, x4, f5, c5)
                &&& #[trigger] resolves_next(self.5, f5, c5, x5, f6, c6)
                &&& #[trigger] resolves_next(self.6, f6, c6, x6, f7, c7)
                &&& #[trigger] resolves_next(self.7, f7, c7, x7, f8, c8)
                &&& #[trigger] resolves_next(self.8, f8, c8, x8, f9, c9)
                &&& #[trigger] resolves_next(self.9, f9, c9, x9, f10, c10)
                &&& #[trigger] resolves_next(self.10, f10, c10, x10, f11, after)
                &&& resolved == match f11 {
                    Some(error) => Err(error),
                    None => Ok((x0->0, x1->0, x2->0, x3->0, x4->0, x5->0, x6->0, x7->0, x8->0, x9->0, x10->0)),
                }
            }
    }

    open spec fn reads_all(
        &self,
        resolved: (S0::Resolved, S1::Resolved, S2::Resolved, S3::Resolved, S4::Resolved, S5::Resolved, S6::Resolved, S7::Resolved, S8::Resolved, S9::Resolved, S10::Resolved),
        before: ContextState<V, B>,
        values: (S0::Output, S1::Output, S2::Output, S3::Output, S4::Output, S5::Output, S6::Output, S7::Output, S8::Output, S9::Output, S10::Output),
        after: ContextState<V, B>,
    ) -> bool {
        exists|
            c1: ContextState<V, B>,
            c2: ContextState<V, B>,
            c3: ContextState<V, B>,
            c4: ContextState<V, B>,
            c5: ContextState<V, B>,
            c6: ContextState<V, B>,
            c7: ContextState<V, B>,
            c8: ContextState<V, B>,
            c9: ContextState<V, B>,
            c10: ContextState<V, B>,
        |
            {
                &&& #[trigger] self.0.reads(resolved.0, before, values.0, c1)
                &&& #[trigger] self.1.reads(resolved.1, c1, values.1, c2)
                &&& #[trigger] self.2.reads(resolved.2, c2, values.2, c3)
                &&& #[trigger] self.3.reads(resolved.3, c3, values.3, c4)
                &&& #[trigger] self.4.reads(resolved.4, c4, values.4, c5)
                &&& #[trigger] self.5.reads(resolved.5, c5, values.5, c6)
                &&& #[trigger] self.6.reads(resolved.6, c6, values.6, c7)
                &&& #[trigger] self.7.reads(resolved.7, c7, values.7, c8)
                &&& #[trigger] self.8.reads(resolved.8, c8, values.8, c9)
                &&& #[trigger] self.9.reads(resolved.9, c9, values.9, c10)
                &&& #[trigger] self.10.reads(resolved.10, c10, values.10, after)
            }
    }

    fn resolve_all(&self, context: &mut TemplateContext<'_, V, B>) -> (resolved: Result<
        (S0::Resolved, S1::Resolved, S2::Resolved, S3::Resolved, S4::Resolved, S5::Resolved, S6::Resolved, S7::Resolved, S8::Resolved, S9::Resolved, S10::Resolved),
        TemplateError,
    >) {
        let ghost before = context@;
        let mut failure: Option<TemplateError> = None;
        let x0 = resolve_next(&self.0, &mut failure, context);
        let ghost (f1, c1) = (failure, context@);
        let x1 = resolve_next(&self.1, &mut failure, context);
        let ghost (f2, c2) = (failure, context@);
        let x2 = resolve_next(&self.2, &mut failure, context);
        let ghost (f3, c3) = (failure, context@);
        let x3 = resolve_next(&self.3, &mut failure, context);
        let ghost (f4, c4) = (failure, context@);
        let x4 = resolve_next(&self.4, &mut failure, context);
        let ghost (f5, c5) = (failure, context@);
        let x5 = resolve_next(&self.5, &mut failure, context);
        let ghost (f6, c6) = (failure, context@);
        let x6 = resolve_next(&self.6, &mut failure, context);
        let ghost (f7, c7) = (failure, context@);
        let x7 = resolve_next(&self.7, &mut failure, context);
        let ghost (f8, c8) = (failure, context@);
        let x8 = resolve_next(&self.8, &mut failure, context);
        let ghost (f9, c9) = (failure, context@);
        let x9 = resolve_next(&self.9, &mut failure, context);
        let ghost (f10, c10) = (failure, context@);
        let x10 = resolve_next(&self.10, &mut failure, context);
        let ghost (f11, c11) = (failure, context@);
        proof {
            assert(resolves_next(self.0, None, before, x0, f1, c1));
            assert(resolves_next(self.1, f1, c1, x1, f2, c2));
            assert(resolves_next(self.2, f2, c2, x2, f3, c3));
            assert(resolves_next(self.3, f3, c3, x3, f4, c4));
            assert(resolves_next(self.4, f4, c4, x4, f5, c5));
            assert(resolves_next(self.5, f5, c5, x5, f6, c6));
            assert(resolves_next(self.6, f6, c6, x6, f7, c7));
            assert(resolves_next(self.7, f7, c7, x7, f8, c8));
            assert(resolves_next(self.8, f8, c8, x8, f9, c9));
            assert(resolves_next(self.9, f9, c9, x9, f10, c10));
            assert(resolves_next(self.10, f10, c10, x10, f11, c11));
        }
        match failure {
            Some(error) => Err(error),
            None => Ok((x0.unwrap(), x1.unwrap(), x2.unwrap(), x3.unwrap(), x4.unwrap(), x5.unwrap(), x6.unwrap(), x7.unwrap(), x8.unwrap(), x9.unwrap(), x10.unwrap())),
        }
    }

    fn read_all(
        &self,
        resolved: &(S0::Resolved, S1::Resolved, S2::Resolved, S3::Resolved, S4::Resolved, S5::Resolved, S6::Resolved, S7::Resolved, S8::Resolved, S9::Resolved, S10::Resolved),
        context: &mut EffectContext<'_, V, B>,
    ) -> (values: (S0::Output, S1::Output, S2::Output, S3::Output, S4::Output, S5::Output, S6::Output, S7::Output, S8::Output, S9::Output, S10::Output)) {
        let ghost before = context@;
        let v0 = self.0.read(&resolved.0, context);
        let ghost c1 = context@;
        let v1 = self.1.read(&resolved.1, context);
        let ghost c2 = context@;
        let v2 = self.2.read(&resolved.2, context);
        let ghost c3 = context@;
        let v3 = self.3.read(&resolved.3, context);
        let ghost c4 = context@;
        let v4 = self.4.read(&resolved.4, context);
        let ghost c5 = context@;
        let v5 = self.5.read(&resolved.5, context);
        let ghost c6 = context@;
        let v6 = self.6.read(&resolved.6, context);
        let ghost c7 = context@;
        let v7 = self.7.read(&resolved.7, context);
        let ghost c8 = context@;
        let v8 = self.8.read(&resolved.8, context);
        let ghost c9 = context@;
        let v9 = self.9.read(&resolved.9, context);
        let ghost c10 = context@;
        let v10 = self.10.read(&resolved.10, context);
        let ghost c11 = context@;
        let values = (v0, v1, v2, v3, v4, v5, v6, v7, v8, v9, v10);
        proof {
            assert(self.0.reads(resolved.0, before, values.0, c1));
            assert(self.1.reads(resolved.1, c1, values.1, c2));
            assert(self.2.reads(resolved.2, c2, values.2, c3));
            assert(self.3.reads(resolved.3, c3, values.3, c4));
            assert(self.4.reads(resolved.4, c4, values.4, c5));
            assert(self.5.reads(resolved.5, c5, values.5, c6));
            assert(self.6.reads(resolved.6, c6, values.6, c7));
            assert(self.7.reads(resolved.7, c7, values.7, c8));
            assert(self.8.reads(resolved.8, c8, values.8, c9));
            assert(self.9.reads(resolved.9, c9, values.9, c10));
            assert(self.10.reads(resolved.10, c10, values.10, c11));
        }
        values
    }
}

impl<S0: SourceTypes, S1: SourceTypes, S2: SourceTypes, S3: SourceTypes, S4: SourceTypes, S5: SourceTypes, S6: SourceTypes, S7: SourceTypes, S8: SourceTypes, S9: SourceTypes, S10: SourceTypes, S11: SourceTypes> SourcesTypes for (S0, S1, S2, S3, S4, S5, S6, S7, S8, S9, S10, S11) {
    type Output = (S0::Output, S1::Output, S2::Output, S3::Output, S4::Output, S5::Output, S6::Output, S7::Output, S8::Output, S9::Output, S10::Output, S11::Output);

    type Resolved = (S0::Resolved, S1::Resolved, S2::Resolved, S3::Resolved, S4::Resolved, S5::Resolved, S6::Resolved, S7::Resolved, S8::Resolved, S9::Resolved, S10::Resolved, S11::Resolved);
}

impl<V, B, S0: ReactiveSource<V, B>, S1: ReactiveSource<V, B>, S2: ReactiveSource<V, B>, S3: ReactiveSource<V, B>, S4: ReactiveSource<V, B>, S5: ReactiveSource<V, B>, S6: ReactiveSource<V, B>, S7: ReactiveSource<V, B>, S8: ReactiveSource<V, B>, S9: ReactiveSource<V, B>, S10: ReactiveSource<V, B>, S11: ReactiveSource<V, B>> ReactiveSources<V, B> for (S0, S1, S2, S3, S4, S5, S6, S7, S8, S9, S10, S11) {
    open spec fn resolves_all(
        &self,
        before: TemplateState<V, B>,
        resolved: Result<(S0::Resolved, S1::Resolved, S2::Resolved, S3::Resolved, S4::Resolved, S5::Resolved, S6::Resolved, S7::Resolved, S8::Resolved, S9::Resolved, S10::Resolved, S11::Resolved), TemplateError>,
        after: TemplateState<V, B>,
    ) -> bool {
        exists|
            x0: Option<S0::Resolved>,
            f1: Option<TemplateError>,
            c1: TemplateState<V, B>,
            x1: Option<S1::Resolved>,
            f2: Option<TemplateError>,
            c2: TemplateState<V, B>,
            x2: Option<S2::Resolved>,
            f3: Option<TemplateError>,
            c3: TemplateState<V, B>,
            x3: Option<S3::Resolved>,
            f4: Option<TemplateError>,
            c4: TemplateState<V, B>,
            x4: Option<S4::Resolved>,
            f5: Option<TemplateError>,
            c5: TemplateState<V, B>,
            x5: Option<S5::Resolved>,
            f6: Option<TemplateError>,
            c6: TemplateState<V, B>,
            x6: Option<S6::Resolved>,
            f7: Option<TemplateError>,
            c7: TemplateState<V, B>,
            x7: Option<S7::Resolved>,
            f8: Option<TemplateError>,
            c8: TemplateState<V, B>,
            x8: Option<S8::Resolved>,
            f9: Option<TemplateError>,
            c9: TemplateState<V, B>,
            x9: Option<S9::Resolved>,
            f10: Option<TemplateError>,
            c10: TemplateState<V, B>,
            x10: Option<S10::Resolved>,
            f11: Option<TemplateError>,
            c11: TemplateState<V, B>,
            x11: Option<S11::Resolved>,
            f12: Option<TemplateError>,
        |
            {
                &&& #[trigger] resolves_next(self.0, None, before, x0, f1, c1)
                &&& #[trigger] resolves_next(self.1, f1, c1, x1, f2, c2)
                &&& #[trigger] resolves_next(self.2, f2, c2, x2, f3, c3)
                &&& #[trigger] resolves_next(self.3, f3, c3, x3, f4, c4)
                &&& #[trigger] resolves_next(self.4, f4, c4, x4, f5, c5)
                &&& #[trigger] resolves_next(self.5, f5, c5, x5, f6, c6)
                &&& #[trigger] resolves_next(self.6, f6, c6, x6, f7, c7)
                &&& #[trigger] resolves_next(self.7, f7, c7, x7, f8, c8)
                &&& #[trigger] resolves_next(self.8, f8, c8, x8, f9, c9)
                &&& #[trigger] resolves_next(self.9, f9, c9, x9, f10, c10)
                &&& #[trigger] resolves_next(self.10, f10, c10, x10, f11, c11)
                &&& #[trigger] resolves_next(self.11, f11, c11, x11, f12, after)
                &&& resolved == match f12 {
                    Some(error) => Err(error),
                    None => Ok((x0->0, x1->0, x2->0, x3->0, x4->0, x5->0, x6->0, x7->0, x8->0, x9->0, x10->0, x11->0)),
                }
            }
    }

    open spec fn reads_all(
        &self,
        resolved: (S0::Resolved, S1::Resolved, S2::Resolved, S3::Resolved, S4::Resolved, S5::Resolved, S6::Resolved, S7::Resolved, S8::Resolved, S9::Resolved, S10::Resolved, S11::Resolved),
        before: ContextState<V, B>,
        values: (S0::Output, S1::Output, S2::Output, S3::Output, S4::Output, S5::Output, S6::Output, S7::Output, S8::Output, S9::Output, S10::Output, S11::Output),
        after: ContextState<V, B>,
    ) -> bool {
        exists|
            c1: ContextState<V, B>,
            c2: ContextState<V, B>,
            c3: ContextState<V, B>,
            c4: ContextState<V, B>,
            c5: ContextState<V, B>,
            c6: ContextState<V, B>,
            c7: ContextState<V, B>,
            c8: ContextState<V, B>,
            c9: ContextState<V, B>,
            c10: ContextState<V, B>,
            c11: ContextState<V, B>,
        |
            {
                &&& #[trigger] self.0.reads(resolved.0, before, values.0, c1)
                &&& #[trigger] self.1.reads(resolved.1, c1, values.1, c2)
                &&& #[trigger] self.2.reads(resolved.2, c2, values.2, c3)
                &&& #[trigger] self.3.reads(resolved.3, c3, values.3, c4)
                &&& #[trigger] self.4.reads(resolved.4, c4, values.4, c5)
                &&& #[trigger] self.5.reads(resolved.5, c5, values.5, c6)
                &&& #[trigger] self.6.reads(resolved.6, c6, values.6, c7)
                &&& #[trigger] self.7.reads(resolved.7, c7, values.7, c8)
                &&& #[trigger] self.8.reads(resolved.8, c8, values.8, c9)
                &&& #[trigger] self.9.reads(resolved.9, c9, values.9, c10)
                &&& #[trigger] self.10.reads(resolved.10, c10, values.10, c11)
                &&& #[trigger] self.11.reads(resolved.11, c11, values.11, after)
            }
    }

    fn resolve_all(&self, context: &mut TemplateContext<'_, V, B>) -> (resolved: Result<
        (S0::Resolved, S1::Resolved, S2::Resolved, S3::Resolved, S4::Resolved, S5::Resolved, S6::Resolved, S7::Resolved, S8::Resolved, S9::Resolved, S10::Resolved, S11::Resolved),
        TemplateError,
    >) {
        let ghost before = context@;
        let mut failure: Option<TemplateError> = None;
        let x0 = resolve_next(&self.0, &mut failure, context);
        let ghost (f1, c1) = (failure, context@);
        let x1 = resolve_next(&self.1, &mut failure, context);
        let ghost (f2, c2) = (failure, context@);
        let x2 = resolve_next(&self.2, &mut failure, context);
        let ghost (f3, c3) = (failure, context@);
        let x3 = resolve_next(&self.3, &mut failure, context);
        let ghost (f4, c4) = (failure, context@);
        let x4 = resolve_next(&self.4, &mut failure, context);
        let ghost (f5, c5) = (failure, context@);
        let x5 = resolve_next(&self.5, &mut failure, context);
        let ghost (f6, c6) = (failure, context@);
        let x6 = resolve_next(&self.6, &mut failure, context);
        let ghost (f7, c7) = (failure, context@);
        let x7 = resolve_next(&self.7, &mut failure, context);
        let ghost (f8, c8) = (failure, context@);
        let x8 = resolve_next(&self.8, &mut failure, context);
        let ghost (f9, c9) = (failure, context@);
        let x9 = resolve_next(&self.9, &mut failure, context);
        let ghost (f10, c10) = (failure, context@);
        let x10 = resolve_next(&self.10, &mut failure, context);
        let ghost (f11, c11) = (failure, context@);
        let x11 = resolve_next(&self.11, &mut failure, context);
        let ghost (f12, c12) = (failure, context@);
        proof {
            assert(resolves_next(self.0, None, before, x0, f1, c1));
            assert(resolves_next(self.1, f1, c1, x1, f2, c2));
            assert(resolves_next(self.2, f2, c2, x2, f3, c3));
            assert(resolves_next(self.3, f3, c3, x3, f4, c4));
            assert(resolves_next(self.4, f4, c4, x4, f5, c5));
            assert(resolves_next(self.5, f5, c5, x5, f6, c6));
            assert(resolves_next(self.6, f6, c6, x6, f7, c7));
            assert(resolves_next(self.7, f7, c7, x7, f8, c8));
            assert(resolves_next(self.8, f8, c8, x8, f9, c9));
            assert(resolves_next(self.9, f9, c9, x9, f10, c10));
            assert(resolves_next(self.10, f10, c10, x10, f11, c11));
            assert(resolves_next(self.11, f11, c11, x11, f12, c12));
        }
        match failure {
            Some(error) => Err(error),
            None => Ok((x0.unwrap(), x1.unwrap(), x2.unwrap(), x3.unwrap(), x4.unwrap(), x5.unwrap(), x6.unwrap(), x7.unwrap(), x8.unwrap(), x9.unwrap(), x10.unwrap(), x11.unwrap())),
        }
    }

    fn read_all(
        &self,
        resolved: &(S0::Resolved, S1::Resolved, S2::Resolved, S3::Resolved, S4::Resolved, S5::Resolved, S6::Resolved, S7::Resolved, S8::Resolved, S9::Resolved, S10::Resolved, S11::Resolved),
        context: &mut EffectContext<'_, V, B>,
    ) -> (values: (S0::Output, S1::Output, S2::Output, S3::Output, S4::Output, S5::Output, S6::Output, S7::Output, S8::Output, S9::Output, S10::Output, S11::Output)) {
        let ghost before = context@;
        let v0 = self.0.read(&resolved.0, context);
        let ghost c1 = context@;
        let v1 = self.1.read(&resolved.1, context);
        let ghost c2 = context@;
        let v2 = self.2.read(&resolved.2, context);
        let ghost c3 = context@;
        let v3 = self.3.read(&resolved.3, context);
        let ghost c4 = context@;
        let v4 = self.4.read(&resolved.4, context);
        let ghost c5 = context@;
        let v5 = self.5.read(&resolved.5, context);
        let ghost c6 = context@;
        let v6 = self.6.read(&resolved.6, context);
        let ghost c7 = context@;
        let v7 = self.7.read(&resolved.7, context);
        let ghost c8 = context@;
        let v8 = self.8.read(&resolved.8, context);
        let ghost c9 = context@;
        let v9 = self.9.read(&resolved.9, context);
        let ghost c10 = context@;
        let v10 = self.10.read(&resolved.10, context);
        let ghost c11 = context@;
        let v11 = self.11.read(&resolved.11, context);
        let ghost c12 = context@;
        let values = (v0, v1, v2, v3, v4, v5, v6, v7, v8, v9, v10, v11);
        proof {
            assert(self.0.reads(resolved.0, before, values.0, c1));
            assert(self.1.reads(resolved.1, c1, values.1, c2));
            assert(self.2.reads(resolved.2, c2, values.2, c3));
            assert(self.3.reads(resolved.3, c3, values.3, c4));
            assert(self.4.reads(resolved.4, c4, values.4, c5));
            assert(self.5.reads(resolved.5, c5, values.5, c6));
            assert(self.6.reads(resolved.6, c6, values.6, c7));
            assert(self.7.reads(resolved.7, c7, values.7, c8));
            assert(self.8.reads(resolved.8, c8, values.8, c9));
            assert(self.9.reads(resolved.9, c9, values.9, c10));
            assert(self.10.reads(resolved.10, c10, values.10, c11));
            assert(self.11.reads(resolved.11, c11, values.11, c12));
        }
        values
    }
}

} // verus!
