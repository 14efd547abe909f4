//! Rules that apply to windows when they open.

use vstd::prelude::*;

use crate::integer::{parse_unsigned, unsigned_of};
use crate::number::{reading, Number};
use crate::text::{
    after_prefix, chars_of, contains, contains_text, same, slices_view, split, split_spec,
    string_of, strip_prefix,
};

verus! {

#[derive(Debug)]
pub enum RuleMatcher {
    Class(String),
    Title(String),
    AppId(String),
}

/// What a [`RuleMatcher`] holds.
pub enum MatcherView {
    Class(Seq<char>),
    Title(Seq<char>),
    AppId(Seq<char>),
}

impl View for RuleMatcher {
    type V = MatcherView;

    open spec fn view(&self) -> MatcherView {
        match *self {
            RuleMatcher::Class(s) => MatcherView::Class(s@),
            RuleMatcher::Title(s) => MatcherView::Title(s@),
            RuleMatcher::AppId(s) => MatcherView::AppId(s@),
        }
    }
}

/// The matcher that `s` writes; without a prefix it is an app id.
pub open spec fn matcher_of(s: Seq<char>) -> MatcherView {
    match after_prefix(s, "class:"@) {
        Some(t) => MatcherView::Class(t),
        None => match after_prefix(s, "title:"@) {
            Some(t) => MatcherView::Title(t),
            None => match after_prefix(s, "app_id:"@) {
                Some(t) => MatcherView::AppId(t),
                None => MatcherView::AppId(s),
            },
        },
    }
}

impl MatcherView {
    /// Whether a window is meant: its title, or else its app id, contains the
    /// text of the matcher.
    pub open spec fn means(self, app_id: Seq<char>, title: Seq<char>) -> bool {
        match self {
            MatcherView::Class(c) => contains_text(app_id, c),
            MatcherView::AppId(c) => contains_text(app_id, c),
            MatcherView::Title(t) => contains_text(title, t),
        }
    }
}

impl RuleMatcher {
    pub fn parse(s: &str) -> (r: Self)
        ensures
            r@ == matcher_of(s@),
    {
        let c = chars_of(s);
        match strip_prefix(c.as_slice(), "class:") {
            Some(t) => RuleMatcher::Class(string_of(t)),
            None => match strip_prefix(c.as_slice(), "title:") {
                Some(t) => RuleMatcher::Title(string_of(t)),
                None => match strip_prefix(c.as_slice(), "app_id:") {
                    Some(t) => RuleMatcher::AppId(string_of(t)),
                    None => RuleMatcher::AppId(s.to_owned()),
                },
            },
        }
    }

    pub fn matches(&self, app_id: &str, title: &str) -> (r: bool)
        ensures
            r == self@.means(app_id@, title@),
    {
        match self {
            RuleMatcher::Class(c) => contains(app_id, c.as_str()),
            RuleMatcher::AppId(c) => contains(app_id, c.as_str()),
            RuleMatcher::Title(t) => contains(title, t.as_str()),
        }
    }
}

#[derive(Debug)]
pub enum RuleEffect {
    Float,
    Fullscreen,
    Size(u32, u32),
    Position(i32, i32),
    Workspace(u8),
    NoBorder,
    NoTitle,
    Opacity(Number),
}

/// What a [`RuleEffect`] holds.
pub enum EffectView {
    Float,
    Fullscreen,
    Size(u32, u32),
    Position(i32, i32),
    Workspace(u8),
    NoBorder,
    NoTitle,
    Opacity(Seq<char>),
}

impl View for RuleEffect {
    type V = EffectView;

    open spec fn view(&self) -> EffectView {
        match *self {
            RuleEffect::Float => EffectView::Float,
            RuleEffect::Fullscreen => EffectView::Fullscreen,
            RuleEffect::Size(w, h) => EffectView::Size(w, h),
            RuleEffect::Position(x, y) => EffectView::Position(x, y),
            RuleEffect::Workspace(n) => EffectView::Workspace(n),
            RuleEffect::NoBorder => EffectView::NoBorder,
            RuleEffect::NoTitle => EffectView::NoTitle,
            RuleEffect::Opacity(x) => EffectView::Opacity(x@),
        }
    }
}

/// `<width>x<height>`.
pub open spec fn size_of_text(s: Seq<char>) -> Option<EffectView> {
    let parts = split_spec(s, 'x');
    if parts.len() != 2 {
        None
    } else {
        match (
            unsigned_of(parts[0], 10, u32::MAX as nat),
            unsigned_of(parts[1], 10, u32::MAX as nat),
        ) {
            (Some(w), Some(h)) => Some(EffectView::Size(w as u32, h as u32)),
            _ => None,
        }
    }
}

/// The effect that `s` writes.
pub open spec fn effect_of(s: Seq<char>) -> Option<EffectView> {
    if s == "float"@ {
        Some(EffectView::Float)
    } else if s == "fullscreen"@ {
        Some(EffectView::Fullscreen)
    } else if s == "noborder"@ {
        Some(EffectView::NoBorder)
    } else if s == "notitle"@ {
        Some(EffectView::NoTitle)
    } else if after_prefix(s, "size "@) is Some {
        size_of_text(after_prefix(s, "size "@)->0)
    } else if after_prefix(s, "workspace "@) is Some {
        match unsigned_of(after_prefix(s, "workspace "@)->0, 10, 255) {
            Some(n) => Some(EffectView::Workspace(n as u8)),
            None => None,
        }
    } else if after_prefix(s, "opacity "@) is Some {
        let x = after_prefix(s, "opacity "@)->0;
        if reading(x) is Some {
            Some(EffectView::Opacity(x))
        } else {
            None
        }
    } else {
        None
    }
}

impl RuleEffect {
    pub fn parse(s: &str) -> (r: Option<Self>)
        ensures
            match r {
                Some(e) => effect_of(s@) == Some(e@),
                None => effect_of(s@) is None,
            },
    {
        if same(s, "float") {
            return Some(RuleEffect::Float);
        }
        if same(s, "fullscreen") {
            return Some(RuleEffect::Fullscreen);
        }
        if same(s, "noborder") {
            return Some(RuleEffect::NoBorder);
        }
        if same(s, "notitle") {
            return Some(RuleEffect::NoTitle);
        }
        let c = chars_of(s);
        if let Some(rest) = strip_prefix(c.as_slice(), "size ") {
            let parts = split(rest, 'x');
            if parts.len() != 2 {
                return None;
            }
            assert(slices_view(parts@)[0] == parts@[0]@ && slices_view(parts@)[1] == parts@[1]@);
            return match (
                parse_unsigned(parts[0], 10, u32::MAX),
                parse_unsigned(parts[1], 10, u32::MAX),
            ) {
                (Some(w), Some(h)) => Some(RuleEffect::Size(w, h)),
                _ => None,
            };
        }
        if let Some(rest) = strip_prefix(c.as_slice(), "workspace ") {
            return match parse_unsigned(rest, 10, 255) {
                Some(n) => Some(RuleEffect::Workspace(n as u8)),
                None => None,
            };
        }
        if let Some(rest) = strip_prefix(c.as_slice(), "opacity ") {
            return match Number::parse(rest) {
                Some(x) => Some(RuleEffect::Opacity(x)),
                None => None,
            };
        }
        None
    }
}

#[derive(Debug)]
pub struct WindowRule {
    pub matcher: RuleMatcher,
    pub effects: Vec<RuleEffect>,
}

/// What a [`WindowRule`] holds.
pub struct RuleView {
    pub matcher: MatcherView,
    pub effects: Seq<EffectView>,
}

pub open spec fn effects_view(v: Seq<RuleEffect>) -> Seq<EffectView> {
    Seq::new(v.len(), |i: int| v[i]@)
}

pub open spec fn rule_view(r: WindowRule) -> RuleView {
    RuleView { matcher: r.matcher@, effects: effects_view(r.effects@) }
}

pub open spec fn rules_view(v: Seq<WindowRule>) -> Seq<RuleView> {
    Seq::new(v.len(), |i: int| rule_view(v[i]))
}

} // verus!
