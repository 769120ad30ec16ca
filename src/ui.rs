//! Layout of a generic parameter editor: a scrollable list with a label and a
//! widget for each parameter, spaced apart.
use vstd::prelude::*;

verus! {

/// One row of a generic parameter editor.
#[derive(Clone, Copy, Debug, PartialEq, Eq, Structural)]
pub enum UiRow {
    /// Vertical spacing between two parameters.
    Spacing,
    /// The name of the parameter with this index.
    Label(usize),
    /// The widget of the parameter with this index.
    Widget(usize),
}

/// The rows for the first `n` parameters: each gets its label and widget,
/// and every parameter but the first is preceded by spacing.
pub open spec fn editor_rows(n: nat) -> Seq<UiRow>
    decreases n,
{
    if n == 0 {
        Seq::empty()
    } else {
        let i = (n - 1) as usize;
        let before = editor_rows((n - 1) as nat);
        let gap = if n > 1 {
            seq![UiRow::Spacing]
        } else {
            Seq::empty()
        };
        before + gap + seq![UiRow::Label(i), UiRow::Widget(i)]
    }
}

/// A generic editor that shows every parameter with a slider.
pub struct GenericSlider;

impl GenericSlider {
    /// The rows of an editor for `count` parameters, in display order.
    pub fn rows(&self, count: usize) -> (r: Vec<UiRow>)
        requires
            count <= usize::MAX / 3,
        ensures
            r@ == editor_rows(count as nat),
    {
        let mut rows: Vec<UiRow> = Vec::new();
        let mut i: usize = 0;
        while i < count
            invariant
                i <= count,
                count <= usize::MAX / 3,
                rows@ == editor_rows(i as nat),
            decreases count - i,
        {
            if i > 0 {
                rows.push(UiRow::Spacing);
            }
            rows.push(UiRow::Label(i));
            rows.push(UiRow::Widget(i));
            proof {
                let gap = if i + 1 > 1 {
                    seq![UiRow::Spacing]
                } else {
                    Seq::<UiRow>::empty()
                };
                assert(rows@ =~= editor_rows(i as nat) + gap + seq![UiRow::Label(i), UiRow::Widget(i)]);
            }
            i = i + 1;
        }
        rows
    }
}

} // verus!
