use vstd::prelude::*;
use vstd::string::*;

verus! {

/// The end of a line.
pub const LINE_END: &'static str = "\n";

/// Something the shell asks the console to do.
pub enum Action {
    /// Write these bytes to the serial line, in order.
    Uart(Vec<u8>),
    /// Write these character codes to the serial line, in order.
    UartCells(Vec<u32>),
    /// Draw these characters at the cursor in the current foreground colour.
    Draw(Vec<u8>),
    /// Draw the characters with these codes at the cursor in the current
    /// foreground colour.
    DrawCells(Vec<u32>),
    /// Draw these characters in palette colours (`drawstr_colors`), then
    /// restore the foreground colour.
    DrawPalette(Vec<u8>),
    /// Step the screen cursor back one cell and blank it.
    Backspace,
    /// Set the background and foreground colours and fill the screen.
    Colors { bg: u32, fg: u32 },
}

/// An action, its bytes and codes as sequences.
pub enum ActionView {
    Uart(Seq<u8>),
    UartCells(Seq<u32>),
    Draw(Seq<u8>),
    DrawCells(Seq<u32>),
    DrawPalette(Seq<u8>),
    Backspace,
    Colors { bg: u32, fg: u32 },
}

impl View for Action {
    type V = ActionView;

    open spec fn view(&self) -> ActionView {
        match self {
            Action::Uart(b) => ActionView::Uart(b@),
            Action::UartCells(c) => ActionView::UartCells(c@),
            Action::Draw(b) => ActionView::Draw(b@),
            Action::DrawCells(c) => ActionView::DrawCells(c@),
            Action::DrawPalette(b) => ActionView::DrawPalette(b@),
            Action::Backspace => ActionView::Backspace,
            Action::Colors { bg, fg } => ActionView::Colors { bg: *bg, fg: *fg },
        }
    }
}

/// The actions of a list, each as a view.
pub open spec fn views(v: Seq<Action>) -> Seq<ActionView> {
    Seq::new(v.len(), |i: int| v[i]@)
}

/// Write `s` to the serial line.
pub open spec fn uart(s: &str) -> ActionView {
    ActionView::Uart(s.spec_bytes())
}

/// Write `s` to the serial line, then draw it in palette colours.
pub open spec fn say_both(s: &str) -> Seq<ActionView> {
    seq![uart(s), ActionView::DrawPalette(s.spec_bytes())]
}


proof fn lemma_views_push(v: Seq<Action>, a: Action)
    ensures
        views(v.push(a)) == views(v).push(a@),
{
    assert(views(v.push(a)) =~= views(v).push(a@));
}

/// A buffer of the single byte `b`.
pub fn one_byte(b: u8) -> (v: Vec<u8>)
    ensures
        v@ == seq![b],
{
    let mut v: Vec<u8> = Vec::new();
    v.push(b);
    assert(v@ =~= seq![b]);
    v
}

/// Appends an action.
pub fn emit(out: &mut Vec<Action>, a: Action)
    ensures
        views(final(out)@) == views(old(out)@).push(a@),
{
    proof {
        lemma_views_push(old(out)@, a);
    }
    out.push(a);
}

/// Writes `s` to the serial line.
pub fn say(out: &mut Vec<Action>, s: &str)
    ensures
        views(final(out)@) == views(old(out)@).push(uart(s)),
{
    emit(out, Action::Uart(s.as_bytes_vec()));
}

/// Writes `s` to the serial line, then draws it in palette colours.
pub fn say_and_draw(out: &mut Vec<Action>, s: &str)
    ensures
        views(final(out)@) == views(old(out)@) + say_both(s),
{
    let ghost start = views(out@);
    emit(out, Action::Uart(s.as_bytes_vec()));
    emit(out, Action::DrawPalette(s.as_bytes_vec()));
    assert(start.push(uart(s)).push(ActionView::DrawPalette(s.spec_bytes())) =~= start + say_both(s));
}


} // verus!
