//! The confirmation phase of the gesture session: after a trigger symbol
//! is recognized, the user must redraw the same symbol to confirm, or
//! draw the cancel gesture to abort.  This module holds the phase's
//! decision rule and its dialog state; the window itself, and the worker
//! thread that runs the sampling loop, live in the surrounding program.

use vstd::prelude::*;
use crate::shape::Shape;
use crate::template::{push_templates_for, template_views, templates_for_spec, Template};

verus! {

/// Outcome rule of the confirmation phase: confirmed exactly when the
/// second recognition yields the symbol being confirmed.  A device error
/// or an external cancellation (both reported as `None`), or any other
/// recognized symbol — the cancel gesture included — is "not confirmed".
pub open spec fn confirmed_spec(recognition: Option<Shape>, confirm_shape: Shape) -> bool {
    match recognition {
        Some(sh) => sh == confirm_shape,
        None => false,
    }
}

/// State of the confirmation dialog: the symbol whose redrawing confirms,
/// the symbol that cancels, and the published outcome (`None` while the
/// phase is still running).
pub struct ConfirmationGui {
    pub confirm_shape: Shape,
    pub cancel_shape: Shape,
    pub status: Option<bool>,
}

impl ConfirmationGui {
    /// A confirmation dialog with no outcome published yet.
    pub fn new(confirm_shape: Shape, cancel_shape: Shape) -> (g: ConfirmationGui)
        ensures
            g.confirm_shape == confirm_shape,
            g.cancel_shape == cancel_shape,
            g.status == None::<bool>,
    {
        ConfirmationGui { confirm_shape, cancel_shape, status: None }
    }

    /// Template set of the confirmation phase: the templates of the
    /// symbol to confirm followed by those of the cancel symbol.
    pub fn confirmation_templates(&self) -> (r: Vec<Template>)
        ensures
            template_views(r@) == templates_for_spec(self.confirm_shape) + templates_for_spec(
                self.cancel_shape,
            ),
    {
        let mut acc: Vec<Template> = Vec::new();
        proof {
            assert(template_views(acc@) =~= Seq::empty());
        }
        push_templates_for(&mut acc, self.confirm_shape);
        push_templates_for(&mut acc, self.cancel_shape);
        proof {
            assert(Seq::empty() + templates_for_spec(self.confirm_shape) =~= templates_for_spec(
                self.confirm_shape,
            ));
        }
        acc
    }

    /// Publish the phase's outcome from the recognition result: confirmed
    /// exactly when the confirmed symbol was redrawn.
    pub fn resolve(&mut self, recognition: Option<Shape>)
        ensures
            final(self).confirm_shape == old(self).confirm_shape,
            final(self).cancel_shape == old(self).cancel_shape,
            final(self).status == Some(confirmed_spec(recognition, old(self).confirm_shape)),
    {
        let confirmed = match recognition {
            Some(sh) => sh == self.confirm_shape,
            None => false,
        };
        self.status = Some(confirmed);
    }

    /// The window was closed: if no outcome was published yet, the phase
    /// counts as "not confirmed"; an already published outcome stands.
    pub fn window_closed(&mut self)
        ensures
            final(self).confirm_shape == old(self).confirm_shape,
            final(self).cancel_shape == old(self).cancel_shape,
            final(self).status == (match old(self).status {
                None => Some(false),
                Some(b) => Some(b),
            }),
    {
        if self.status.is_none() {
            self.status = Some(false);
        }
    }
}

/// Confirmation succeeds if and only if the confirmation phase recognizes
/// exactly the symbol of the trigger phase; recognizing the cancel
/// symbol, a device error, or an external cancellation all yield "not
/// confirmed".
pub proof fn lemma_confirmation_iff(recognition: Option<Shape>, confirm_shape: Shape)
    ensures
        confirmed_spec(recognition, confirm_shape) <==> recognition == Some(confirm_shape),
        recognition == None::<Shape> ==> !confirmed_spec(recognition, confirm_shape),
        confirm_shape != Shape::Cross && recognition == Some(Shape::Cross)
            ==> !confirmed_spec(recognition, confirm_shape),
{
}

} // verus!
