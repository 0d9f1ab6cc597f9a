use vstd::prelude::*;

verus! {

/// A key press, as far as the widgets tell keys apart.
#[derive(Clone, Copy, Debug, PartialEq, Eq, Structural)]
pub enum Key {
    Char(char),
    Enter,
    Other,
}

/// What a widget asks of its owner after an event.
#[derive(Clone, Copy, Debug, PartialEq, Eq, Structural)]
pub enum WidgetRet {
    /// The key was not used.
    KeyIgnored,
    /// The key was used.
    KeyHandled,
    /// The widget is to be removed.
    Remove,
    /// The program is to stop.
    Abort,
}

/// The question asked before quitting.
pub open spec fn question() -> Seq<char> {
    "Really quit?"@
}

/// A one-line dialogue that asks whether to quit.
pub struct ExitDialogue {
    width: i32,
}

impl ExitDialogue {
    pub fn new(width: i32) -> (r: ExitDialogue)
        ensures
            r.width() == width,
    {
        ExitDialogue { width }
    }

    pub closed spec fn width(&self) -> i32 {
        self.width
    }

    /// Only the width matters to a one-line dialogue.
    pub fn resize(&mut self, width: i32, _height: i32)
        ensures
            final(self).width() == width,
    {
        self.width = width;
    }

    /// The characters of the dialogue's row: the question, then blanks up
    /// to the width.
    pub fn cells(&self) -> (r: Vec<char>)
        ensures
            r@.len() == vstd::math::max(question().len() as int, self.width() as int),
            r@.subrange(0, question().len() as int) == question(),
            forall|i: int| question().len() <= i < r@.len() ==> r@[i] == ' ',
    {
        let msg = "Really quit?";
        proof {
            reveal_strlit("Really quit?");
        }
        let mut r: Vec<char> = Vec::new();
        let n = msg.unicode_len();
        let mut i: usize = 0;
        while i < n
            invariant
                n == msg@.len(),
                msg@ == question(),
                i <= n,
                r@ == msg@.subrange(0, i as int),
            decreases n - i,
        {
            r.push(msg.get_char(i));
            i = i + 1;
            assert(r@ =~= msg@.subrange(0, i as int));
        }
        let mut col: i32 = n as i32;
        while col < self.width
            invariant
                n == question().len(),
                n <= col,
                col as int <= vstd::math::max(n as int, self.width as int),
                r@.len() == col,
                r@.subrange(0, n as int) == question(),
                forall|k: int| n <= k < r@.len() ==> r@[k] == ' ',
            decreases self.width - col,
        {
            r.push(' ');
            col = col + 1;
            assert(r@.subrange(0, n as int) =~= question());
        }
        r
    }

    /// `y` or Enter confirms; any other key dismisses the dialogue.
    pub fn keypressed(&mut self, key: Key) -> (r: WidgetRet)
        ensures
            *final(self) == *old(self),
            r == (if key == Key::Char('y') || key == Key::Enter {
                WidgetRet::Abort
            } else {
                WidgetRet::Remove
            }),
    {
        match key {
            Key::Char('y') | Key::Enter => WidgetRet::Abort,
            _ => WidgetRet::Remove,
        }
    }

    pub fn event(&mut self) -> (r: WidgetRet)
        ensures
            *final(self) == *old(self),
            r == WidgetRet::KeyIgnored,
    {
        WidgetRet::KeyIgnored
    }
}

} // verus!
