//! Flow-control windows.

use crate::server::http2::frame::Http2ErrorCode;
use vstd::prelude::*;

verus! {

pub const DEFAULT_INITIAL_WINDOW_SIZE: u32 = 65535;

pub const MAX_WINDOW_SIZE: u32 = 2147483647;

/// How many bytes may still be sent; negative after a setting shrank the window.
#[derive(Debug, Clone, Copy, PartialEq, Eq, Structural)]
pub struct Window {
    pub available: i32,
}

/// The window after a gain of `n`, or the error that the gain is.
pub open spec fn window_gain(available: int, n: int) -> Result<int, Http2ErrorCode> {
    if n == 0 {
        Err(Http2ErrorCode::ProtocolError)
    } else if available + n > MAX_WINDOW_SIZE {
        Err(Http2ErrorCode::FlowControlError)
    } else {
        Ok(available + n)
    }
}

/// The window after a change of the initial size by `delta`.
pub open spec fn window_shift(available: int, delta: int) -> Result<int, Http2ErrorCode> {
    if i32::MIN <= available + delta <= MAX_WINDOW_SIZE {
        Ok(available + delta)
    } else {
        Err(Http2ErrorCode::FlowControlError)
    }
}

impl Window {
    /// A window of the given size.
    pub fn new(initial_size: u32) -> (r: Self)
        ensures
            r.available == initial_size as i32,
    {
        Window { available: initial_size as i32 }
    }

    pub fn available(&self) -> (n: i32)
        ensures
            n == self.available,
    {
        self.available
    }

    /// Widens the window; it never exceeds the greatest size.
    pub fn update(&mut self, increment: u32) -> (r: Result<(), Http2ErrorCode>)
        ensures
            match window_gain(old(self).available as int, increment as int) {
                Ok(n) => r is Ok && final(self).available == n,
                Err(e) => r == Err::<(), _>(e) && *final(self) == *old(self),
            },
    {
        if increment == 0 {
            return Err(Http2ErrorCode::ProtocolError);
        }
        let wide: i64 = (self.available as i64) + (increment as i64);
        if wide > MAX_WINDOW_SIZE as i64 {
            return Err(Http2ErrorCode::FlowControlError);
        }
        self.available = wide as i32;
        Ok(())
    }

    /// Moves the window by a change of the initial size.
    pub fn adjust(&mut self, delta: i64) -> (r: Result<(), Http2ErrorCode>)
        ensures
            match window_shift(old(self).available as int, delta as int) {
                Ok(n) => r is Ok && final(self).available == n,
                Err(e) => r == Err::<(), _>(e) && *final(self) == *old(self),
            },
    {
        let wide: i128 = (self.available as i128) + (delta as i128);
        if wide > MAX_WINDOW_SIZE as i128 || wide < -2147483648 {
            return Err(Http2ErrorCode::FlowControlError);
        }
        self.available = wide as i32;
        Ok(())
    }

    /// Narrows the window by what was sent.
    pub fn consume(&mut self, bytes: u32) -> (r: Result<(), Http2ErrorCode>)
        requires
            bytes <= MAX_WINDOW_SIZE,
            old(self).available - bytes >= i32::MIN,
        ensures
            r is Ok,
            final(self).available == old(self).available - bytes,
    {
        self.available = self.available - bytes as i32;
        Ok(())
    }
}

/// A window never exceeds the greatest size, whatever gains it is offered.
pub proof fn law_window_stays_bounded(available: int, n: int)
    requires
        available <= MAX_WINDOW_SIZE,
        0 <= n,
    ensures
        window_gain(available, n) matches Ok(m) ==> available < m <= MAX_WINDOW_SIZE,
        window_shift(available, n) matches Ok(m) ==> m <= MAX_WINDOW_SIZE,
{
}

/// Giving back what was consumed restores the window.
pub proof fn law_gain_undoes_consumption(available: int, n: int)
    requires
        available <= MAX_WINDOW_SIZE,
        0 < n,
    ensures
        window_gain(available - n, n) == Ok::<int, Http2ErrorCode>(available),
{
}

/// The connection window and the size that new streams start with.
#[derive(Debug, Clone, Copy, PartialEq, Eq, Structural)]
pub struct FlowControl {
    pub connection_window: Window,
    pub initial_stream_window_size: u32,
}

impl FlowControl {
    pub fn new(initial_window_size: u32) -> (r: Self)
        ensures
            r.connection_window.available == initial_window_size as i32,
            r.initial_stream_window_size == initial_window_size,
    {
        FlowControl {
            connection_window: Window::new(initial_window_size),
            initial_stream_window_size: initial_window_size,
        }
    }

    pub fn connection_window(&self) -> (r: &Window)
        ensures
            *r == self.connection_window,
    {
        &self.connection_window
    }

    pub fn connection_window_mut(&mut self) -> (r: &mut Window)
        ensures
            *r == old(self).connection_window,
            *final(self) == (FlowControl { connection_window: *final(r), ..*old(self) }),
    {
        &mut self.connection_window
    }

    pub fn initial_stream_window_size(&self) -> (n: u32)
        ensures
            n == self.initial_stream_window_size,
    {
        self.initial_stream_window_size
    }

    /// Sets the size that new streams start with.
    pub fn update_initial_window_size(&mut self, new_size: u32) -> (r: Result<(), Http2ErrorCode>)
        ensures
            if new_size > MAX_WINDOW_SIZE {
                r == Err::<(), _>(Http2ErrorCode::FlowControlError) && *final(self) == *old(self)
            } else {
                r is Ok && *final(self) == (FlowControl {
                    initial_stream_window_size: new_size,
                    ..*old(self)
                })
            },
    {
        if new_size > MAX_WINDOW_SIZE {
            return Err(Http2ErrorCode::FlowControlError);
        }
        self.initial_stream_window_size = new_size;
        Ok(())
    }
}

} // verus!
