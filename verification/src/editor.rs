//! Editing-session state: which token is selected, the color it had when it
//! was selected, and whether a save is pending.
//!
//! The surrounding shell owns rendering and input; it calls these methods to
//! decide what a click or a picker change does, and it performs the save
//! whenever `should_save` is set.

use vstd::prelude::*;

use crate::color::Rgb;
use crate::color_file::{tokens_view, ColorFile, Token, TokenView};

verus! {

/// One editing session over one open document.
pub struct ColorEditor {
    pub color_file: ColorFile,
    pub selected_token: Option<usize>,
    pub old_color32: Rgb,
    pub should_save: bool,
    pub monospace: bool,
    pub autosave: bool,
}

impl ColorEditor {
    /// A fresh session over a just-loaded document: nothing selected,
    /// nothing pending.
    pub fn new(color_file: ColorFile, monospace: bool, autosave: bool) -> (r: ColorEditor)
        ensures
            r.color_file == color_file,
            r.selected_token is None,
            !r.should_save,
            r.monospace == monospace,
            r.autosave == autosave,
    {
        ColorEditor {
            color_file,
            selected_token: None,
            old_color32: Rgb { r: 0, g: 0, b: 0 },
            should_save: false,
            monospace,
            autosave,
        }
    }

    /// A click on token `i`: a color token becomes the selected token and
    /// its current value is remembered, so that it can be restored later; a
    /// click anywhere else changes nothing.
    pub fn select_token(&mut self, i: usize) -> (r: bool)
        ensures
            r == (i < old(self).color_file.tokens@.len()
                && old(self).color_file.tokens@[i as int] is Color),
            r ==> final(self).selected_token == Some(i)
                && final(self).old_color32 == old(self).color_file.tokens@[i as int]->Color_1,
            !r ==> *final(self) == *old(self),
            final(self).color_file == old(self).color_file,
            final(self).should_save == old(self).should_save,
            final(self).monospace == old(self).monospace,
            final(self).autosave == old(self).autosave,
    {
        if i < self.color_file.tokens.len() {
            match &self.color_file.tokens[i] {
                Token::Color(_, value) => {
                    let picked = *value;
                    self.selected_token = Some(i);
                    self.old_color32 = picked;
                    true
                },
                Token::Text(_) => false,
            }
        } else {
            false
        }
    }

    /// The color picker chose `value` for the selected token: the token's
    /// value is replaced, and when autosave is on and the value actually
    /// changed, a save becomes pending.  Without a selected color token
    /// nothing changes.
    pub fn pick_color(&mut self, value: Rgb) -> (r: bool)
        ensures
            r == (match old(self).selected_token {
                Some(i) => i < old(self).color_file.tokens@.len()
                    && old(self).color_file.tokens@[i as int] is Color,
                None => false,
            }),
            !r ==> *final(self) == *old(self),
            r ==> (match old(self).selected_token {
                Some(i) => {
                    let prev = old(self).color_file.tokens@[i as int]->Color_1;
                    &&& tokens_view(final(self).color_file.tokens@)
                        == tokens_view(old(self).color_file.tokens@).update(
                        i as int,
                        TokenView::Color(old(self).color_file.tokens@[i as int]->Color_0@, value),
                    )
                    &&& final(self).should_save == (old(self).should_save || (old(self).autosave
                        && value != prev))
                },
                None => false,
            }),
            final(self).color_file.color_count == old(self).color_file.color_count,
            final(self).color_file.path == old(self).color_file.path,
            final(self).selected_token == old(self).selected_token,
            final(self).old_color32 == old(self).old_color32,
            final(self).monospace == old(self).monospace,
            final(self).autosave == old(self).autosave,
    {
        match self.selected_token {
            Some(i) => {
                if i < self.color_file.tokens.len() {
                    let prev: Rgb;
                    let is_color: bool;
                    match &self.color_file.tokens[i] {
                        Token::Color(_, v) => {
                            prev = *v;
                            is_color = true;
                        },
                        Token::Text(_) => {
                            prev = Rgb { r: 0, g: 0, b: 0 };
                            is_color = false;
                        },
                    }
                    if is_color {
                        self.color_file.set_color(i, value);
                        if self.autosave && value != prev {
                            self.should_save = true;
                        }
                        true
                    } else {
                        false
                    }
                } else {
                    false
                }
            },
            None => false,
        }
    }

    /// The restore button: the selected token goes back to the color it had
    /// when it was selected, and a save becomes pending.
    pub fn restore_previous(&mut self) -> (r: bool)
        ensures
            r == (match old(self).selected_token {
                Some(i) => i < old(self).color_file.tokens@.len()
                    && old(self).color_file.tokens@[i as int] is Color,
                None => false,
            }),
            !r ==> *final(self) == *old(self),
            r ==> (match old(self).selected_token {
                Some(i) => {
                    &&& tokens_view(final(self).color_file.tokens@)
                        == tokens_view(old(self).color_file.tokens@).update(
                        i as int,
                        TokenView::Color(
                            old(self).color_file.tokens@[i as int]->Color_0@,
                            old(self).old_color32,
                        ),
                    )
                    &&& final(self).should_save
                },
                None => false,
            }),
            final(self).color_file.color_count == old(self).color_file.color_count,
            final(self).color_file.path == old(self).color_file.path,
            final(self).selected_token == old(self).selected_token,
            final(self).old_color32 == old(self).old_color32,
            final(self).monospace == old(self).monospace,
            final(self).autosave == old(self).autosave,
    {
        match self.selected_token {
            Some(i) => {
                if i < self.color_file.tokens.len() {
                    let is_color: bool;
                    match &self.color_file.tokens[i] {
                        Token::Color(_, _) => {
                            is_color = true;
                        },
                        Token::Text(_) => {
                            is_color = false;
                        },
                    }
                    if is_color {
                        let restored = self.old_color32;
                        self.color_file.set_color(i, restored);
                        self.should_save = true;
                        true
                    } else {
                        false
                    }
                } else {
                    false
                }
            },
            None => false,
        }
    }
}

} // verus!
