//! Display items: what a query answers with.

use vstd::prelude::*;
use vstd::string::*;

verus! {

/// The text of an optional string.
pub open spec fn text_opt(o: Option<String>) -> Option<Seq<char>> {
    match o {
        Some(s) => Some(s@),
        None => None,
    }
}

/// A copy of an optional string.
pub fn copy_opt(o: &Option<String>) -> (r: Option<String>)
    ensures
        r == *o,
{
    match o {
        Some(s) => Some(s.clone()),
        None => None,
    }
}

/// The action an item offers when the alternate modifier key is held.
#[derive(Debug)]
pub struct AlternateAction {
    pub arg: String,
    pub subtitle: String,
    pub icon: String,
}

/// What an `AlternateAction` holds.
pub struct AlternateActionView {
    pub arg: Seq<char>,
    pub subtitle: Seq<char>,
    pub icon: Seq<char>,
}

impl View for AlternateAction {
    type V = AlternateActionView;

    open spec fn view(&self) -> AlternateActionView {
        AlternateActionView { arg: self.arg@, subtitle: self.subtitle@, icon: self.icon@ }
    }
}

impl Clone for AlternateAction {
    fn clone(&self) -> (r: Self)
        ensures
            r == *self,
    {
        AlternateAction {
            arg: self.arg.clone(),
            subtitle: self.subtitle.clone(),
            icon: self.icon.clone(),
        }
    }
}

/// One entry of an answer, fully formed for display.
#[derive(Debug)]
pub struct DisplayItem {
    pub title: String,
    pub subtitle: Option<String>,
    pub autocomplete: Option<String>,
    pub uid: Option<String>,
    /// The primary action: the URL that is opened.
    pub arg: Option<String>,
    /// Path of the icon file.
    pub icon: Option<String>,
    pub text_copy: Option<String>,
    pub text_large_type: Option<String>,
    pub quicklook_url: Option<String>,
    /// The `score` variable of the item.
    pub score: Option<u64>,
    pub alternate: Option<AlternateAction>,
}

/// What a `DisplayItem` holds.
pub struct DisplayItemView {
    pub title: Seq<char>,
    pub subtitle: Option<Seq<char>>,
    pub autocomplete: Option<Seq<char>>,
    pub uid: Option<Seq<char>>,
    pub arg: Option<Seq<char>>,
    pub icon: Option<Seq<char>>,
    pub text_copy: Option<Seq<char>>,
    pub text_large_type: Option<Seq<char>>,
    pub quicklook_url: Option<Seq<char>>,
    pub score: Option<u64>,
    pub alternate: Option<AlternateActionView>,
}

impl View for DisplayItem {
    type V = DisplayItemView;

    open spec fn view(&self) -> DisplayItemView {
        DisplayItemView {
            title: self.title@,
            subtitle: text_opt(self.subtitle),
            autocomplete: text_opt(self.autocomplete),
            uid: text_opt(self.uid),
            arg: text_opt(self.arg),
            icon: text_opt(self.icon),
            text_copy: text_opt(self.text_copy),
            text_large_type: text_opt(self.text_large_type),
            quicklook_url: text_opt(self.quicklook_url),
            score: self.score,
            alternate: match self.alternate {
                Some(a) => Some(a@),
                None => None,
            },
        }
    }
}

impl Clone for DisplayItem {
    fn clone(&self) -> (r: Self)
        ensures
            r == *self,
    {
        DisplayItem {
            title: self.title.clone(),
            subtitle: copy_opt(&self.subtitle),
            autocomplete: copy_opt(&self.autocomplete),
            uid: copy_opt(&self.uid),
            arg: copy_opt(&self.arg),
            icon: copy_opt(&self.icon),
            text_copy: copy_opt(&self.text_copy),
            text_large_type: copy_opt(&self.text_large_type),
            quicklook_url: copy_opt(&self.quicklook_url),
            score: self.score,
            alternate: match &self.alternate {
                Some(a) => Some(a.clone()),
                None => None,
            },
        }
    }
}

} // verus!
