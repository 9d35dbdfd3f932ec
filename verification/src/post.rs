//! The thread data model: one harvested discussion thread and its
//! messages, and the fold that assembles a whole thread's messages into
//! paragraphs while tracking the last author seen.

use crate::assemble::{
    assemble, assemble_spec, paras_view, GMeta, GPara, MessageMeta, Paragraph, ThreadState,
};
use crate::walker::{runs_view, GRun, StyledRun};
use vstd::prelude::*;

verus! {

/// One message of a thread: its author, its date line, and its body as
/// raw markup text.
#[derive(Debug, Clone)]
pub struct PostMessage {
    pub author: String,
    pub date: String,
    pub message: String,
}

/// One discussion thread: its title and category, and its messages once
/// they have been extracted.
#[derive(Debug, Clone)]
pub struct Post {
    pub title: String,
    pub category: String,
    pub messages: Option<Vec<PostMessage>>,
}

/// What assembling a whole thread yields: each message's paragraphs in
/// message order, the thread state advancing through the authors.
pub open spec fn assemble_thread_spec(
    items: Seq<(GMeta, Seq<GRun>)>,
    last: Option<Seq<char>>,
) -> Seq<GPara>
    decreases items.len(),
{
    if items.len() == 0 {
        Seq::empty()
    } else {
        assemble_spec(items[0].1, items[0].0, last) + assemble_thread_spec(
            items.drop_first(),
            Some(items[0].0.author),
        )
    }
}

/// Assemble a thread's messages in order, as `assemble_thread_spec`
/// describes, threading the accumulated last-author state through the
/// calls.
#[verifier::loop_isolation(false)]
pub fn assemble_thread(items: &Vec<(MessageMeta, Vec<StyledRun>)>, state: &mut ThreadState) -> (r:
    Vec<Paragraph>)
    ensures
        paras_view(r@) == assemble_thread_spec(
            items@.map_values(|p: (MessageMeta, Vec<StyledRun>)| (p.0@, runs_view(p.1@))),
            old(state)@.last_author,
        ),
        items@.len() > 0 ==> final(state)@.last_author == Some(
            items@.last().0.author@,
        ),
        items@.len() == 0 ==> *final(state) == *old(state),
{
    let ghost iv = items@.map_values(|p: (MessageMeta, Vec<StyledRun>)| (p.0@, runs_view(p.1@)));
    let mut out: Vec<Paragraph> = Vec::new();
    let mut i: usize = 0;
    proof {
        assert(paras_view(out@) =~= Seq::<GPara>::empty());
        assert(iv.subrange(0, iv.len() as int) =~= iv);
        assert(paras_view(out@) + assemble_thread_spec(iv, old(state)@.last_author)
            =~= assemble_thread_spec(iv, old(state)@.last_author));
    }
    while i < items.len()
        invariant
            0 <= i <= items@.len(),
            paras_view(out@) + assemble_thread_spec(
                iv.subrange(i as int, iv.len() as int),
                state@.last_author,
            ) == assemble_thread_spec(iv, old(state)@.last_author),
            i > 0 ==> state@.last_author == Some(items@[i - 1].0.author@),
            i == 0 ==> *state == *old(state),
        decreases items@.len() - i,
    {
        let ghost suffix = iv.subrange(i as int, iv.len() as int);
        proof {
            assert(suffix[0] == iv[i as int]);
            assert(iv[i as int] == (items@[i as int].0@, runs_view(items@[i as int].1@)));
            assert(suffix.drop_first() =~= iv.subrange(i + 1, iv.len() as int));
        }
        let (meta, runs) = &items[i];
        let mut paras = assemble(runs, meta, state);
        let ghost pre_out = paras_view(out@);
        let ghost parasv = paras_view(paras@);
        out.append(&mut paras);
        proof {
            assert(paras_view(out@) =~= pre_out + parasv);
            assert((pre_out + parasv) + assemble_thread_spec(
                iv.subrange(i + 1, iv.len() as int),
                state@.last_author,
            ) =~= pre_out + (parasv + assemble_thread_spec(
                iv.subrange(i + 1, iv.len() as int),
                state@.last_author,
            )));
        }
        i = i + 1;
    }
    proof {
        assert(iv.subrange(iv.len() as int, iv.len() as int) =~= Seq::<(
            GMeta,
            Seq<GRun>,
        )>::empty());
    }
    out
}

} // verus!
