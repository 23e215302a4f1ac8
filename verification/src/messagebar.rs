use vstd::prelude::*;
use vstd::string::*;
use crate::prelude::Size;
use crate::message::{Message, help_text};
use crate::text::byte_len;

verus! {

broadcast use vstd::string::group_string_axioms;

/// The line at the bottom of the screen that shows messages.
pub struct MessageBar {
    current_msg: Message,
    needs_redraw: bool,
    margin_bottom: usize,
    width: usize,
    position_y: usize,
    is_visible: bool,
}

/// The mathematical form of a [`MessageBar`].
pub struct MessageBarState {
    pub msg: Seq<char>,
    pub needs_redraw: bool,
    pub margin_bottom: usize,
    pub width: usize,
    pub position_y: usize,
    pub is_visible: bool,
}

/// The row of the message bar on a screen `height` rows high, one row above
/// the bottom margin, if the screen is high enough.
pub open spec fn bar_row(height: int, margin_bottom: int) -> Option<int> {
    if height - margin_bottom - 1 >= 0 {
        Some(height - margin_bottom - 1)
    } else {
        None
    }
}

/// The state after fitting the bar to a screen of `size`.
pub open spec fn resized(s: MessageBarState, size: Size) -> MessageBarState {
    MessageBarState {
        width: size.width,
        position_y: match bar_row(size.height as int, s.margin_bottom as int) {
            Some(r) => r as usize,
            None => 0,
        },
        is_visible: bar_row(size.height as int, s.margin_bottom as int) is Some,
        needs_redraw: true,
        ..s
    }
}

impl MessageBar {
    /// The mathematical form of the bar.
    pub closed spec fn state(&self) -> MessageBarState {
        MessageBarState {
            msg: self.current_msg.msg@,
            needs_redraw: self.needs_redraw,
            margin_bottom: self.margin_bottom,
            width: self.width,
            position_y: self.position_y,
            is_visible: self.is_visible,
        }
    }

    /// An empty bar with `margin_bottom` rows below it, fitted to a screen
    /// of `size`.
    pub fn new(margin_bottom: usize, size: Size) -> (res: MessageBar)
        ensures
            res.state() == resized(
                MessageBarState {
                    msg: Seq::empty(),
                    needs_redraw: true,
                    margin_bottom,
                    width: size.width,
                    position_y: 0,
                    is_visible: false,
                },
                size,
            ),
    {
        let mut message_bar = MessageBar {
            current_msg: Message::new(),
            needs_redraw: true,
            margin_bottom,
            width: size.width,
            position_y: 0,
            is_visible: false,
        };
        message_bar.resize(size);
        message_bar
    }

    /// Fits the bar to a screen of `size`: it stands one row above the bottom
    /// margin, and is hidden when the screen is not high enough.
    pub fn resize(&mut self, size: Size)
        ensures
            final(self).state() == resized(old(self).state(), size),
    {
        self.width = size.width;
        let mut position_y: usize = 0;
        let mut is_visible = false;
        match size.height.checked_sub(self.margin_bottom) {
            Some(r) => match r.checked_sub(1) {
                Some(result) => {
                    position_y = result;
                    is_visible = true;
                },
                None => {},
            },
            None => {},
        }
        self.position_y = position_y;
        self.is_visible = is_visible;
        self.needs_redraw = true;
    }

    /// Whether the bar must be drawn again.
    pub fn needs_redraw(&self) -> (res: bool)
        ensures
            res == self.state().needs_redraw,
    {
        self.needs_redraw
    }

    /// What to print to draw the bar on a terminal `terminal_width` columns
    /// wide (`None` when the width could not be read): the row and the
    /// message (the help text when there is none), or nothing when the
    /// message is wider than the terminal.  Nothing is drawn when the bar is
    /// hidden or already drawn, or when the width could not be read.
    pub fn render(&mut self, terminal_width: Option<usize>) -> (res: Option<(usize, String)>)
        ensures
            ({
                let s = old(self).state();
                if !s.needs_redraw || !s.is_visible || terminal_width is None {
                    res is None && final(self).state() == s
                } else {
                    let msg = if s.msg.len() == 0 { help_text() } else { s.msg };
                    &&& final(self).state() == (MessageBarState { msg, needs_redraw: false, ..s })
                    &&& res matches Some((row, text))
                    &&& row == s.position_y
                    &&& text@ == (if byte_len(msg) <= terminal_width->0 { msg } else { Seq::<char>::empty() })
                }
            }),
    {
        if !self.needs_redraw || !self.is_visible {
            return None;
        }
        match terminal_width {
            Some(width) => {
                if self.current_msg.msg.as_str().is_empty() {
                    self.current_msg.default_message();
                }
                let msg = self.current_msg.msg.clone();
                let n = msg.as_str().as_bytes().len();
                let to_print = if n <= width { msg } else { String::new() };
                self.needs_redraw = false;
                Some((self.position_y, to_print))
            },
            None => None,
        }
    }
}

} // verus!
