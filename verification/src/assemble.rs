//! The paragraph assembler: group a message's run sequence into paragraphs
//! with citation-aware indentation, and put an author heading and a date
//! line before the body — the heading collapsing across consecutive
//! messages by the thread owner.

use crate::style::{GStyle, StyleDescriptor};
use crate::text::{
    all_space, contains_sub, is_space, lower_char, starts_with, str_contains, str_eq,
    str_starts_with, string_from_chars, to_lower_char, to_unicode_upper, unicode_upper,
};
use crate::walker::{citation_tag, runs_view, GRun, StyledRun};
use vstd::prelude::*;

verus! {

/// The author and date of one message, as the extraction collaborator
/// supplies them.
#[derive(Debug, Clone)]
pub struct MessageMeta {
    pub author: String,
    pub date: String,
}

/// The mathematical view of message metadata.
pub ghost struct GMeta {
    pub author: Seq<char>,
    pub date: Seq<char>,
}

impl View for MessageMeta {
    type V = GMeta;

    open spec fn view(&self) -> GMeta {
        GMeta { author: self.author@, date: self.date@ }
    }
}

/// The accumulator threaded through successive `assemble` calls for one
/// thread: the author of the message last assembled, if any.
#[derive(Debug, Clone)]
pub struct ThreadState {
    pub last_author: Option<String>,
}

/// The mathematical view of the thread state.
pub ghost struct GThreadState {
    pub last_author: Option<Seq<char>>,
}

impl View for ThreadState {
    type V = GThreadState;

    open spec fn view(&self) -> GThreadState {
        GThreadState {
            last_author: match self.last_author {
                Some(a) => Some(a@),
                None => None,
            },
        }
    }
}

/// An ordered group of runs sharing citation state; `indented` is true
/// exactly for paragraphs of citation-tagged runs.
#[derive(Debug, PartialEq)]
pub struct Paragraph {
    pub runs: Vec<StyledRun>,
    pub indented: bool,
}

/// The mathematical view of a paragraph.
#[verifier::ext_equal]
pub ghost struct GPara {
    pub runs: Seq<GRun>,
    pub indented: bool,
}

impl View for Paragraph {
    type V = GPara;

    open spec fn view(&self) -> GPara {
        GPara { runs: runs_view(self.runs@), indented: self.indented }
    }
}

/// The views of a sequence of paragraphs, in order.
pub open spec fn paras_view(v: Seq<Paragraph>) -> Seq<GPara> {
    v.map_values(|p: Paragraph| p@)
}

/// A run is quoted material when its style carries the citation tag.
pub open spec fn is_citation_run(r: GRun) -> bool {
    r.style.semantic_tag == Some(citation_tag())
}

/// Does this run carry the citation semantic tag?
pub fn is_citation(run: &StyledRun) -> (b: bool)
    ensures
        b == is_citation_run(run@),
{
    match &run.style.semantic_tag {
        Some(t) => str_eq(t.as_str(), "citation"),
        None => false,
    }
}

/// The honorific prefix: the name opens with "rav " in any letter case.
pub open spec fn honorific(s: Seq<char>) -> bool {
    s.len() >= 4 && lower_char(s[0]) == 'r' && lower_char(s[1]) == 'a' && lower_char(s[2]) == 'v'
        && s[3] == ' '
}

/// The uppercased first letter of each whitespace-separated word of `s`,
/// concatenated; uppercasing is the full Unicode mapping, which may yield
/// more than one character.
pub open spec fn initials(s: Seq<char>) -> Seq<char>
    decreases s.len(),
{
    if s.len() == 0 {
        s
    } else {
        initials(s.drop_last()) + (if !is_space(s.last()) && (s.len() == 1 || is_space(
            s[s.len() - 2],
        )) {
            unicode_upper(s.last())
        } else {
            Seq::empty()
        })
    }
}

/// What anonymization yields: an honorific-prefixed name passes through
/// unchanged; any other name is reduced to its initials.
pub open spec fn anonymize_spec(s: Seq<char>) -> Seq<char> {
    if honorific(s) {
        s
    } else {
        initials(s)
    }
}

/// Anonymize an author's display name, as `anonymize_spec` describes.
pub fn anonymize_author(author: &str) -> (r: String)
    ensures
        r@ == anonymize_spec(author@),
{
    let n = author.unicode_len();
    if n >= 4 {
        let h = to_lower_char(author.get_char(0)) == 'r' && to_lower_char(author.get_char(1))
            == 'a' && to_lower_char(author.get_char(2)) == 'v' && author.get_char(3) == ' ';
        if h {
            return author.to_owned();
        }
    }
    let mut acc: Vec<char> = Vec::new();
    let mut i: usize = 0;
    proof {
        assert(author@.subrange(0, 0) =~= Seq::<char>::empty());
        assert(acc@ =~= initials(author@.subrange(0, 0)));
    }
    while i < n
        invariant
            0 <= i <= n,
            n == author@.len(),
            acc@ == initials(author@.subrange(0, i as int)),
        decreases n - i,
    {
        let c = author.get_char(i);
        let word_start = !crate::text::char_is_space(c) && (i == 0 || crate::text::char_is_space(
            author.get_char(i - 1),
        ));
        if word_start {
            let mut up = to_unicode_upper(c);
            acc.append(&mut up);
        }
        i = i + 1;
        proof {
            let cur = author@.subrange(0, i as int);
            assert(cur.drop_last() =~= author@.subrange(0, i - 1));
            assert(cur.last() == author@[i - 1]);
            assert(acc@ =~= initials(cur));
        }
    }
    proof {
        assert(author@.subrange(0, n as int) =~= author@);
    }
    string_from_chars(&acc)
}

/// The fixed substring that identifies the thread owner's display name.
pub open spec fn owner_marker() -> Seq<char> {
    "Binyamin Wattenberg"@
}

/// An author is the thread owner when the owner marker occurs in the name.
pub open spec fn is_owner(author: Seq<char>) -> bool {
    contains_sub(author, owner_marker())
}

/// The bold, underlined, enlarged style of a heading paragraph.
pub open spec fn heading_style() -> GStyle {
    GStyle {
        bold: Some(true),
        italic: None,
        underline: Some(true),
        size: Some(24),
        color: None,
        semantic_tag: None,
    }
}

/// The bold, underlined style of the date paragraph.
pub open spec fn date_style() -> GStyle {
    GStyle {
        bold: Some(true),
        italic: None,
        underline: Some(true),
        size: None,
        color: None,
        semantic_tag: None,
    }
}

/// The heading paragraph a message gets, if any: none when both this
/// author and the previous one are the owner; "Response:" for the owner;
/// "Question from <anonymized>:" for anyone else.
pub open spec fn heading_for(author: Seq<char>, last: Option<Seq<char>>) -> Option<GPara> {
    if is_owner(author) {
        if last matches Some(l) && is_owner(l) {
            None
        } else {
            Some(
                GPara {
                    runs: seq![
                        GRun { text: "Response:"@, style: heading_style(), is_break: false }
                    ],
                    indented: false,
                },
            )
        }
    } else {
        Some(
            GPara {
                runs: seq![
                    GRun {
                        text: "Question from "@ + anonymize_spec(author) + ":"@,
                        style: heading_style(),
                        is_break: false,
                    }
                ],
                indented: false,
            },
        )
    }
}

/// The date-line prefix token the extraction collaborator hands over,
/// stripped when present.
pub open spec fn date_prefix() -> Seq<char> {
    "Post\u{e9} le: "@
}

/// The date string with the known prefix token removed when present.
pub open spec fn stripped_date(d: Seq<char>) -> Seq<char> {
    if starts_with(d, date_prefix()) {
        d.subrange(date_prefix().len() as int, d.len() as int)
    } else {
        d
    }
}

/// The date paragraph: "On <date>", bold and underlined.
pub open spec fn date_para(d: Seq<char>) -> GPara {
    GPara {
        runs: seq![
            GRun { text: "On "@ + stripped_date(d), style: date_style(), is_break: false }
        ],
        indented: false,
    }
}

/// The paragraph a finished group forms: indented exactly when its runs
/// are citation-tagged.
pub open spec fn para_of(runs: Seq<GRun>) -> GPara {
    GPara { runs, indented: runs.len() > 0 && is_citation_run(runs[0]) }
}

/// Group the remaining runs, `cur` holding the currently open group: a
/// break-marker run closes the open group and goes with it; otherwise
/// maximal stretches of the same citation state stay together.
pub open spec fn group_from(rs: Seq<GRun>, cur: Seq<GRun>) -> Seq<GPara>
    decreases rs.len(),
{
    if rs.len() == 0 {
        if cur.len() == 0 {
            Seq::empty()
        } else {
            seq![para_of(cur)]
        }
    } else {
        let r = rs[0];
        if r.is_break {
            seq![para_of(cur.push(r))] + group_from(rs.drop_first(), Seq::empty())
        } else if cur.len() == 0 || (is_citation_run(cur[0]) == is_citation_run(r)) {
            group_from(rs.drop_first(), cur.push(r))
        } else {
            seq![para_of(cur)] + group_from(rs.drop_first(), seq![r])
        }
    }
}

/// The body paragraphs of a message: its runs split into maximal
/// consecutive groups sharing the same citation state, a break marker
/// forcing a boundary.
pub open spec fn group_runs(rs: Seq<GRun>) -> Seq<GPara> {
    group_from(rs, Seq::empty())
}

/// What assembling one message yields: the heading paragraph when one is
/// owed, the date paragraph, then the body paragraphs.
pub open spec fn assemble_spec(runs: Seq<GRun>, meta: GMeta, last: Option<Seq<char>>) -> Seq<
    GPara,
> {
    (match heading_for(meta.author, last) {
        Some(h) => seq![h],
        None => Seq::empty(),
    }) + seq![date_para(meta.date)] + group_runs(runs)
}

/// Copy a style descriptor.
fn clone_descriptor(d: &StyleDescriptor) -> (c: StyleDescriptor)
    ensures
        c@ == d@,
{
    StyleDescriptor {
        bold: d.bold,
        italic: d.italic,
        underline: d.underline,
        size: d.size,
        color: d.color,
        semantic_tag: match &d.semantic_tag {
            Some(t) => Some(t.clone()),
            None => None,
        },
    }
}

/// Copy a run.
fn clone_run(r: &StyledRun) -> (c: StyledRun)
    ensures
        c@ == r@,
{
    StyledRun { text: r.text.clone(), style: clone_descriptor(&r.style), is_break: r.is_break }
}

/// Group a message's runs into paragraphs, as `group_runs` describes:
/// maximal consecutive stretches of the same citation state become one
/// paragraph each, indented exactly for citation-tagged stretches, and a
/// break-marker run closes its paragraph without starting a new one.
#[verifier::loop_isolation(false)]
pub fn group_paragraphs(runs: &Vec<StyledRun>) -> (r: Vec<Paragraph>)
    ensures
        paras_view(r@) == group_runs(runs_view(runs@)),
{
    let ghost rsv = runs_view(runs@);
    let n = runs.len();
    let mut out: Vec<Paragraph> = Vec::new();
    let mut cur: Vec<StyledRun> = Vec::new();
    let mut i: usize = 0;
    proof {
        assert(rsv.subrange(0, n as int) =~= rsv);
        assert(paras_view(out@) =~= Seq::<GPara>::empty());
        assert(runs_view(cur@) =~= Seq::<GRun>::empty());
        assert(paras_view(out@) + group_from(rsv.subrange(0, n as int), runs_view(cur@))
            =~= group_runs(rsv));
    }
    while i < n
        invariant
            0 <= i <= n,
            n == runs@.len(),
            group_runs(rsv) == paras_view(out@) + group_from(
                rsv.subrange(i as int, n as int),
                runs_view(cur@),
            ),
        decreases n - i,
    {
        let ghost suffix = rsv.subrange(i as int, n as int);
        let ghost curv = runs_view(cur@);
        proof {
            assert(suffix[0] == rsv[i as int]);
            assert(rsv[i as int] == runs@[i as int]@);
            assert(suffix.drop_first() =~= rsv.subrange(i + 1, n as int));
        }
        let r = clone_run(&runs[i]);
        if r.is_break {
            cur.push(r);
            proof {
                assert(runs_view(cur@) =~= curv.push(rsv[i as int]));
            }
            let ind = is_citation(&cur[0]);
            let ghost closed = runs_view(cur@);
            let para = Paragraph { runs: cur, indented: ind };
            proof {
                assert(para@ =~= para_of(closed));
            }
            let ghost pre_out = paras_view(out@);
            out.push(para);
            cur = Vec::new();
            proof {
                assert(paras_view(out@) =~= pre_out.push(para_of(closed)));
                assert(runs_view(cur@) =~= Seq::<GRun>::empty());
                assert(group_from(suffix, curv) == seq![para_of(closed)] + group_from(
                    suffix.drop_first(),
                    Seq::empty(),
                ));
                assert(pre_out + group_from(suffix, curv) =~= paras_view(out@) + group_from(
                    rsv.subrange(i + 1, n as int),
                    runs_view(cur@),
                ));
            }
        } else {
            let same = if cur.len() == 0 {
                true
            } else {
                is_citation(&cur[0]) == is_citation(&r)
            };
            if same {
                cur.push(r);
                proof {
                    assert(runs_view(cur@) =~= curv.push(rsv[i as int]));
                    assert(group_from(suffix, curv) == group_from(
                        suffix.drop_first(),
                        curv.push(rsv[i as int]),
                    ));
                }
            } else {
                let ind = is_citation(&cur[0]);
                let ghost closed = runs_view(cur@);
                let para = Paragraph { runs: cur, indented: ind };
                proof {
                    assert(para@ =~= para_of(closed));
                }
                let ghost pre_out = paras_view(out@);
                out.push(para);
                cur = Vec::new();
                cur.push(r);
                proof {
                    assert(paras_view(out@) =~= pre_out.push(para_of(closed)));
                    assert(runs_view(cur@) =~= seq![rsv[i as int]]);
                    assert(group_from(suffix, curv) == seq![para_of(closed)] + group_from(
                        suffix.drop_first(),
                        seq![rsv[i as int]],
                    ));
                    assert(pre_out + group_from(suffix, curv) =~= paras_view(out@) + group_from(
                        rsv.subrange(i + 1, n as int),
                        runs_view(cur@),
                    ));
                }
            }
        }
        i = i + 1;
    }
    proof {
        assert(rsv.subrange(n as int, n as int) =~= Seq::<GRun>::empty());
    }
    if cur.len() > 0 {
        let ind = is_citation(&cur[0]);
        let ghost closed = runs_view(cur@);
        let ghost pre_out = paras_view(out@);
        let para = Paragraph { runs: cur, indented: ind };
        proof {
            assert(para@ =~= para_of(closed));
        }
        out.push(para);
        proof {
            assert(paras_view(out@) =~= pre_out.push(para_of(closed)));
            assert(pre_out + group_from(Seq::<GRun>::empty(), closed) =~= paras_view(out@));
        }
    } else {
        proof {
            assert(runs_view(cur@) =~= Seq::<GRun>::empty());
            assert(paras_view(out@) + group_from(Seq::<GRun>::empty(), Seq::<GRun>::empty())
                =~= paras_view(out@));
        }
    }
    out
}

/// The bold, underlined, enlarged heading descriptor.
fn heading_descriptor() -> (r: StyleDescriptor)
    ensures
        r@ == heading_style(),
{
    StyleDescriptor {
        bold: Some(true),
        italic: None,
        underline: Some(true),
        size: Some(24),
        color: None,
        semantic_tag: None,
    }
}

/// Assemble one message into its paragraphs, as `assemble_spec` describes:
/// the heading paragraph when one is owed given the thread state, then the
/// date paragraph, then the body paragraphs; the thread state is advanced
/// to this message's author.
#[verifier::loop_isolation(false)]
pub fn assemble(message_runs: &Vec<StyledRun>, meta: &MessageMeta, state: &mut ThreadState) -> (r:
    Vec<Paragraph>)
    ensures
        paras_view(r@) == assemble_spec(
            runs_view(message_runs@),
            meta@,
            old(state)@.last_author,
        ),
        final(state)@.last_author == Some(meta.author@),
{
    let mut out: Vec<Paragraph> = Vec::new();
    // Heading paragraph, unless two consecutive owner messages collapse.
    let author_is_owner = str_contains(meta.author.as_str(), "Binyamin Wattenberg");
    if author_is_owner {
        let collapse = match &state.last_author {
            Some(l) => str_contains(l.as_str(), "Binyamin Wattenberg"),
            None => false,
        };
        if !collapse {
            let mut hr: Vec<StyledRun> = Vec::new();
            hr.push(
                StyledRun {
                    text: "Response:".to_owned(),
                    style: heading_descriptor(),
                    is_break: false,
                },
            );
            let para = Paragraph { runs: hr, indented: false };
            proof {
                assert(para@ =~= heading_for(meta.author@, old(state)@.last_author)->0);
            }
            out.push(para);
        }
    } else {
        let name = anonymize_author(meta.author.as_str());
        let text = "Question from ".to_owned().concat(name.as_str()).concat(":");
        let mut hr: Vec<StyledRun> = Vec::new();
        hr.push(StyledRun { text, style: heading_descriptor(), is_break: false });
        let para = Paragraph { runs: hr, indented: false };
        proof {
            assert(("Question from "@ + anonymize_spec(meta.author@)) + ":"@ =~= "Question from "@
                + anonymize_spec(meta.author@) + ":"@);
            assert(para@ =~= heading_for(meta.author@, old(state)@.last_author)->0);
        }
        out.push(para);
    }
    // Date paragraph, always.
    let stripped = if str_starts_with(meta.date.as_str(), "Post\u{e9} le: ") {
        let plen = "Post\u{e9} le: ".unicode_len();
        let dlen = meta.date.as_str().unicode_len();
        meta.date.as_str().substring_char(plen, dlen).to_owned()
    } else {
        meta.date.clone()
    };
    proof {
        assert(stripped@ == stripped_date(meta.date@));
    }
    let dtext = "On ".to_owned().concat(stripped.as_str());
    let mut dr: Vec<StyledRun> = Vec::new();
    dr.push(
        StyledRun {
            text: dtext,
            style: StyleDescriptor {
                bold: Some(true),
                italic: None,
                underline: Some(true),
                size: None,
                color: None,
                semantic_tag: None,
            },
            is_break: false,
        },
    );
    let dpara = Paragraph { runs: dr, indented: false };
    proof {
        assert(dpara@ =~= date_para(meta.date@));
    }
    out.push(dpara);
    // Body paragraphs.
    let mut body = group_paragraphs(message_runs);
    let ghost pre_body = paras_view(out@);
    let ghost bodyv = paras_view(body@);
    out.append(&mut body);
    proof {
        assert(paras_view(out@) =~= pre_body + bodyv);
        assert(paras_view(out@) =~= assemble_spec(
            runs_view(message_runs@),
            meta@,
            old(state)@.last_author,
        ));
    }
    // Advance the thread state to this message's author.
    state.last_author = Some(meta.author.clone());
    out
}

/// Heading collapse: after a message by the thread owner, a second owner
/// message gets no heading — its assembly is just the date paragraph and
/// the body — while any other combination of consecutive authors gets a
/// heading; a thread's first message always gets one.
pub proof fn lemma_heading_collapse(second_runs: Seq<GRun>, first: GMeta, second: GMeta)
    ensures
        is_owner(first.author) && is_owner(second.author) ==> heading_for(
            second.author,
            Some(first.author),
        ) is None,
        is_owner(first.author) && is_owner(second.author) ==> assemble_spec(
            second_runs,
            second,
            Some(first.author),
        ) == seq![date_para(second.date)] + group_runs(second_runs),
        !(is_owner(first.author) && is_owner(second.author)) ==> heading_for(
            second.author,
            Some(first.author),
        ) is Some,
        heading_for(second.author, None) is Some,
{
    if is_owner(first.author) && is_owner(second.author) {
        assert(Seq::<GPara>::empty() + seq![date_para(second.date)] + group_runs(second_runs)
            =~= seq![date_para(second.date)] + group_runs(second_runs));
    }
}

} // verus!
