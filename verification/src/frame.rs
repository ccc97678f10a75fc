//! One turn of the run loop: whether to go on, and if so the next picture.

use vstd::prelude::*;
use crate::framebuffer::Framebuffer;
use crate::life::{picture, GameOfLife};

verus! {

/// Decides one turn of the run loop from what the display reports. While the
/// window is open and the exit key is up, the game advances one generation,
/// that generation is drawn into the framebuffer, and the answer is `true`:
/// the caller presents the framebuffer, waits and asks again. Otherwise
/// nothing changes and the answer is `false`: the loop is over. A turn, once
/// begun, is always finished.
pub fn next_frame(
    game: &mut GameOfLife,
    framebuffer: &mut Framebuffer,
    window_open: bool,
    exit_key_down: bool,
) -> (go_on: bool)
    requires
        old(game).wf(),
        old(framebuffer).wf(),
    ensures
        go_on == (window_open && !exit_key_down),
        final(game).wf(),
        final(framebuffer).wf(),
        go_on ==> final(game)@ == old(game)@.next(),
        go_on ==> final(framebuffer)@ == picture(old(game)@.next(), old(framebuffer)@),
        !go_on ==> *final(game) == *old(game),
        !go_on ==> *final(framebuffer) == *old(framebuffer),
{
    if window_open && !exit_key_down {
        game.step();
        game.render(framebuffer);
        true
    } else {
        false
    }
}

} // verus!
