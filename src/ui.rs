use vstd::prelude::*;
use vstd::string::*;

use crate::color::Color;

verus! {

/// What the pointer did to a view.
#[derive(Eq, PartialEq, Structural, Copy, Clone, Debug, Hash)]
pub enum MouseEvent {
    MouseIn,
    MouseOut,
    MouseMove,
    MouseDown,
    MouseUp,
}

/// The event a demonstration button emits.
pub enum MyEvent {
    Click,
}

#[derive(Eq, PartialEq, Structural, Copy, Clone, Debug, Hash)]
pub enum HorizontalAlignment {
    Left,
    Middle,
    Right,
}

#[derive(Eq, PartialEq, Structural, Copy, Clone, Debug, Hash)]
pub enum VerticalAlignment {
    Top,
    Middle,
    Bottom,
}

/// A run of text to lay out in a layer.
#[derive(Eq, PartialEq, Clone, Debug, Hash)]
pub struct Text {
    pub characters: String,
    pub color: Color,
    pub size: i32,
    pub horizontal_alignment: HorizontalAlignment,
    pub vertical_alignment: VerticalAlignment,
}

impl Text {
    /// Text of size 25, aligned to the top left.
    pub fn new(text: String, color: Color) -> (r: Text)
        ensures
            r.characters == text,
            r.color == color,
            r.size == 25,
            r.horizontal_alignment == HorizontalAlignment::Left,
            r.vertical_alignment == VerticalAlignment::Top,
    {
        Text {
            characters: text,
            color,
            size: 25,
            horizontal_alignment: HorizontalAlignment::Left,
            vertical_alignment: VerticalAlignment::Top,
        }
    }
}

/// A frame of the given thickness, in pixels, along the edges.
#[derive(Eq, Hash, PartialEq, Structural, Debug, Copy, Clone)]
pub struct BorderMask {
    pub thickness: u32,
}

/// Which pixels of a layer a colour source paints.
#[derive(Eq, Hash, PartialEq, Structural, Debug, Copy, Clone)]
pub enum Pattern {
    All,
    Border(BorderMask),
}

/// The events of the demonstration scoreboard.
#[derive(Clone, PartialEq, Eq, Structural, Debug)]
pub enum ExampleEvent {
    IncrementScoreA,
    IncrementScoreB,
}

/// The state of the demonstration scoreboard.
#[derive(Clone, PartialEq, Eq, Debug)]
pub struct ExampleState {
    pub score_a: u32,
    pub score_b: u32,
    pub period: u32,
    pub time_remaining: String,
    pub play_status: String,
}

impl ExampleState {
    /// A scoreboard early in the first period.
    pub fn sample() -> (r: ExampleState)
        ensures
            r.score_a == 0,
            r.score_b == 1,
            r.period == 1,
            r.time_remaining@ == "5 00"@,
            r.play_status@ == "Faceoff in 0 00"@,
    {
        ExampleState {
            score_a: 0,
            score_b: 1,
            period: 1,
            time_remaining: String::from_str("5 00"),
            play_status: String::from_str("Faceoff in 0 00"),
        }
    }
}

/// The demonstration scoreboard widget.
pub struct ExampleWidget {}

impl ExampleWidget {
    /// The state after `ev`: the named team scores one more.
    pub fn update(&self, state: &ExampleState, ev: &ExampleEvent) -> (r: ExampleState)
        requires
            *ev == ExampleEvent::IncrementScoreA ==> state.score_a < u32::MAX,
            *ev == ExampleEvent::IncrementScoreB ==> state.score_b < u32::MAX,
        ensures
            r.score_a == state.score_a + if *ev == ExampleEvent::IncrementScoreA { 1int } else { 0int },
            r.score_b == state.score_b + if *ev == ExampleEvent::IncrementScoreB { 1int } else { 0int },
            r.period == state.period,
            r.time_remaining == state.time_remaining,
            r.play_status == state.play_status,
    {
        let mut new_state = ExampleState {
            score_a: state.score_a,
            score_b: state.score_b,
            period: state.period,
            time_remaining: state.time_remaining.clone(),
            play_status: state.play_status.clone(),
        };
        match ev {
            ExampleEvent::IncrementScoreA => new_state.score_a = new_state.score_a + 1,
            ExampleEvent::IncrementScoreB => new_state.score_b = new_state.score_b + 1,
        }
        new_state
    }
}

} // verus!
