//! SRT text: each caption becomes one numbered block of four lines.
use vstd::prelude::*;
use vstd::string::*;
use crate::dialogue::{captions, Caption, DialogueEvent};
use crate::text::join;
use crate::timestamp::{append_decimal, decimal};

verus! {

/// The end of a line.
pub open spec fn newline() -> Seq<char> {
    seq!['\n']
}

/// What stands between the two timestamps of a block.
pub open spec fn arrow() -> Seq<char> {
    seq![' ', '-', '-', '>', ' ']
}

/// What is written before each timestamp, whatever its hour: a timestamp
/// with a one-digit hour comes out with two digits, one with a two-digit hour
/// with three.
pub open spec fn hour_pad() -> Seq<char> {
    seq!['0']
}

/// The block of the caption `caption` under the number `number`: the number,
/// the time range, the text, and an empty line.
pub open spec fn block(number: nat, caption: Caption) -> Seq<char> {
    decimal(number) + newline() + hour_pad() + caption.start + arrow() + hour_pad() + caption.end
        + newline() + caption.text + newline() + newline()
}

/// The blocks of a sequence of captions. The caption at index `i` has the
/// number `i + 1`.
pub open spec fn srt_blocks(captions: Seq<Caption>) -> Seq<Seq<char>> {
    Seq::new(captions.len(), |i: int| block((i + 1) as nat, captions[i]))
}

/// The SRT text of a sequence of captions: its blocks, one after another.
pub open spec fn srt_text(captions: Seq<Caption>) -> Seq<char> {
    join(srt_blocks(captions), Seq::<char>::empty())
}

/// Writes the block of `event` under the number `number`.
pub fn render_block(number: usize, event: &DialogueEvent) -> (text: String)
    ensures
        text@ == block(number as nat, event@),
{
    proof {
        reveal_strlit("\n");
        reveal_strlit("0");
        reveal_strlit(" --> ");
        assert("\n"@ =~= newline());
        assert("0"@ =~= hour_pad());
        assert(" --> "@ =~= arrow());
    }
    let mut text = String::new();
    append_decimal(&mut text, number as u64);
    text.append("\n");
    text.append("0");
    text.append(event.start.as_str());
    text.append(" --> ");
    text.append("0");
    text.append(event.end.as_str());
    text.append("\n");
    text.append(event.text.as_str());
    text.append("\n");
    text.append("\n");
    proof {
        assert(text@ =~= block(number as nat, event@));
    }
    text
}

/// Writes the SRT text of `events`: one block for each, in their order,
/// numbered from 1 without gaps.
pub fn render_srt(events: &Vec<DialogueEvent>) -> (text: String)
    ensures
        text@ == srt_text(captions(events@)),
{
    let ghost blocks = srt_blocks(captions(events@));
    let mut text = String::new();
    let mut i: usize = 0;
    proof {
        assert(blocks.take(0) =~= Seq::<Seq<char>>::empty());
    }
    while i < events.len()
        invariant
            i <= events@.len(),
            blocks == srt_blocks(captions(events@)),
            text@ == join(blocks.take(i as int), Seq::<char>::empty()),
        decreases events.len() - i,
    {
        let block_text = render_block(i + 1, &events[i]);
        proof {
            let grown = blocks.take(i + 1);
            assert(grown.drop_last() == blocks.take(i as int));
            assert(grown.last() == block((i + 1) as nat, events@[i as int]@));
            if i == 0 {
                assert(text@ =~= Seq::<char>::empty());
                assert(text@ + block_text@ =~= block_text@);
            } else {
                assert(text@ + block_text@ =~= text@ + Seq::<char>::empty() + block_text@);
            }
        }
        text.append(block_text.as_str());
        i += 1;
    }
    proof {
        assert(blocks.take(i as int) == blocks);
    }
    text
}

/// There is one block for each caption, the block at index `i` is that of
/// the caption at index `i` under the number `i + 1`, and it begins with that
/// number and the end of a line.
pub proof fn lemma_blocks_are_numbered(captions: Seq<Caption>)
    ensures
        srt_blocks(captions).len() == captions.len(),
        forall|i: int|
            0 <= i < captions.len() ==> {
                &&& (#[trigger] srt_blocks(captions)[i]) == block((i + 1) as nat, captions[i])
                &&& (decimal((i + 1) as nat) + newline()).is_prefix_of(srt_blocks(captions)[i])
            },
{
    assert forall|i: int| 0 <= i < captions.len() implies (decimal((i + 1) as nat)
        + newline()).is_prefix_of(#[trigger] srt_blocks(captions)[i]) by {
        let head = decimal((i + 1) as nat) + newline();
        let whole = block((i + 1) as nat, captions[i]);
        assert(whole.subrange(0, head.len() as int) =~= head);
    }
}

} // verus!
