use vstd::prelude::*;

use crate::ast::Node;
use crate::parser::{node_result, parse_tks, spec_parse_program, ParseError};
use crate::tokenizer::{
    chars_of, push_char, spec_tokenize, tokenize_chars, tokenize_result_view, tokens_view, Token, TokenView,
    TokenizeError,
};

verus! {

/// An event's source text with its tokens and syntax tree.
#[derive(Debug)]
pub struct Event {
    pub src: String,
    pub tokens: Vec<Token>,
    pub ast: Node,
}

/// An object: its identifier and the events it handles.
#[derive(Debug)]
pub struct Object {
    pub id: String,
    pub create: Option<Event>,
    pub step: Option<Event>,
    pub draw: Option<Event>,
    pub draw_gui: Option<Event>,
    pub clean_up: Option<Event>,
}

#[derive(Debug)]
pub enum ObjectParseError {
    /// The first line, which does not start with `#id `.
    NoIdentification(String),
    /// The text of an event whose name is not known, and its marker's line.
    UnknownEvent(String, usize),
    TokenizeError(TokenizeError),
    ParseError(ParseError),
}

impl Event {
    /// The tokens are those of the source text, and the tree is theirs.
    pub open spec fn wf(&self) -> bool {
        &&& tokenize_result_view(Ok(self.tokens)) == spec_tokenize(self.src@)
        &&& node_result(Ok(self.ast)) == spec_parse_program(self.tokens@)
    }
}

/// An event block of an object file: the name after its marker, the lines
/// after it, and the marker's line number.
#[derive(Debug)]
pub struct EventBlock {
    pub name: String,
    pub text: String,
    pub line: usize,
}

pub struct BlockView {
    pub name: Seq<char>,
    pub text: Seq<char>,
    pub line: nat,
}

impl View for EventBlock {
    type V = BlockView;

    open spec fn view(&self) -> BlockView {
        BlockView { name: self.name@, text: self.text@, line: self.line as nat }
    }
}

pub open spec fn has_prefix(line: Seq<char>, p: Seq<char>) -> bool {
    p.len() <= line.len() && line.subrange(0, p.len() as int) == p
}

pub open spec fn id_marker() -> Seq<char> {
    seq!['#', 'i', 'd', ' ']
}

pub open spec fn event_marker() -> Seq<char> {
    seq!['#', 'e', 'v', 'e', 'n', 't', ' ']
}

/// The event blocks after line `i`, given the blocks `acc` before it. A
/// marker line opens a block; other lines join the open block, each ended by
/// a newline but the file's last one; lines before the first marker belong
/// to no block.
pub open spec fn blocks_from(lines: Seq<Seq<char>>, i: int, acc: Seq<BlockView>) -> Seq<BlockView>
    decreases lines.len() - i,
{
    if i < 0 || i >= lines.len() {
        acc
    } else if has_prefix(lines[i], event_marker()) {
        let opened = BlockView {
            name: lines[i].subrange(7, lines[i].len() as int),
            text: Seq::empty(),
            line: (i + 1) as nat,
        };
        blocks_from(lines, i + 1, acc.push(opened))
    } else if acc.len() == 0 {
        blocks_from(lines, i + 1, acc)
    } else {
        let piece = if i + 1 == lines.len() {
            lines[i]
        } else {
            lines[i].push('\n')
        };
        let b = acc.last();
        blocks_from(lines, i + 1, acc.update(acc.len() - 1, BlockView { text: b.text + piece, ..b }))
    }
}

/// An object file's identifier and event blocks; `None` where its first line
/// is no `#id ` line.
pub open spec fn spec_object_blocks(lines: Seq<Seq<char>>) -> Option<(Seq<char>, Seq<BlockView>)> {
    if lines.len() == 0 || !has_prefix(lines[0], id_marker()) {
        None
    } else {
        Some((lines[0].subrange(4, lines[0].len() as int), blocks_from(lines, 1, Seq::empty())))
    }
}

pub open spec fn lines_view(lines: Seq<String>) -> Seq<Seq<char>> {
    lines.map_values(|l: String| l@)
}

pub open spec fn blocks_view(blocks: Seq<EventBlock>) -> Seq<BlockView> {
    blocks.map_values(|b: EventBlock| b@)
}

fn starts_with(line: &Vec<char>, marker: &Vec<char>) -> (r: bool)
    ensures
        r == has_prefix(line@, marker@),
{
    if marker.len() > line.len() {
        return false;
    }
    let mut k: usize = 0;
    while k < marker.len()
        invariant
            marker@.len() <= line@.len(),
            k <= marker@.len(),
            forall|j: int| 0 <= j < k ==> line@[j] == marker@[j],
        decreases marker@.len() - k,
    {
        if line[k] != marker[k] {
            assert(line@.subrange(0, marker@.len() as int)[k as int] != marker@[k as int]);
            return false;
        }
        k = k + 1;
    }
    assert(line@.subrange(0, marker@.len() as int) =~= marker@);
    true
}

/// The characters of `cs` from `from` on, as a string.
fn string_from(cs: &Vec<char>, from: usize) -> (r: String)
    requires
        from <= cs@.len(),
    ensures
        r@ == cs@.subrange(from as int, cs@.len() as int),
{
    let mut s = String::new();
    let mut i: usize = from;
    while i < cs.len()
        invariant
            from <= i <= cs@.len(),
            s@ == cs@.subrange(from as int, i as int),
        decreases cs@.len() - i,
    {
        push_char(&mut s, cs[i]);
        i = i + 1;
        assert(s@ =~= cs@.subrange(from as int, i as int));
    }
    s
}

/// Splits the lines of an object file into its identifier and its event
/// blocks; see `spec_object_blocks`.
pub fn split_object_lines(lines: &Vec<String>) -> (r: Result<(String, Vec<EventBlock>), ObjectParseError>)
    ensures
        match spec_object_blocks(lines_view(lines@)) {
            None => r matches Err(ObjectParseError::NoIdentification(l)) && l@ == (if lines@.len() == 0 {
                Seq::<char>::empty()
            } else {
                lines@[0]@
            }),
            Some((id, blocks)) => r matches Ok((i, v)) && i@ == id && blocks_view(v@) == blocks,
        },
{
    let ghost lv = lines_view(lines@);
    if lines.len() == 0 {
        return Err(ObjectParseError::NoIdentification(String::new()));
    }
    let id_mark: Vec<char> = vec!['#', 'i', 'd', ' '];
    let event_mark: Vec<char> = vec!['#', 'e', 'v', 'e', 'n', 't', ' '];
    assert(id_mark@ =~= id_marker() && event_mark@ =~= event_marker());
    let first = chars_of(lines[0].as_str());
    if !starts_with(&first, &id_mark) {
        return Err(ObjectParseError::NoIdentification(lines[0].clone()));
    }
    let id = string_from(&first, 4);
    let mut done: Vec<EventBlock> = Vec::new();
    let mut open: Option<EventBlock> = None;
    let mut i: usize = 1;
    proof {
        assert(blocks_view(done@) =~= Seq::<BlockView>::empty());
    }
    while i < lines.len()
        invariant
            lv == lines_view(lines@),
            1 <= i <= lines@.len(),
            id_mark@ == id_marker(),
            event_mark@ == event_marker(),
            blocks_from(lv, 1, Seq::empty()) == blocks_from(
                lv,
                i as int,
                match open {
                    Some(b) => blocks_view(done@).push(b@),
                    None => blocks_view(done@),
                },
            ),
            open is None ==> done@.len() == 0,
        decreases lines@.len() - i,
    {
        let cs = chars_of(lines[i].as_str());
        assert(cs@ == lv[i as int]);
        if starts_with(&cs, &event_mark) {
            let name = string_from(&cs, 7);
            let opened = EventBlock { name, text: String::new(), line: i + 1 };
            match open {
                Some(b) => {
                    proof {
                        assert(blocks_view(done@.push(b)) =~= blocks_view(done@).push(b@));
                    }
                    done.push(b);
                },
                None => {},
            }
            open = Some(opened);
        } else {
            match open {
                Some(mut b) => {
                    let ghost before = b@;
                    let mut k: usize = 0;
                    while k < cs.len()
                        invariant
                            k <= cs@.len(),
                            b.text@ == before.text + cs@.subrange(0, k as int),
                            b.name@ == before.name,
                            b.line == before.line,
                        decreases cs@.len() - k,
                    {
                        push_char(&mut b.text, cs[k]);
                        k = k + 1;
                        assert(b.text@ =~= before.text + cs@.subrange(0, k as int));
                    }
                    assert(cs@.subrange(0, k as int) =~= cs@);
                    if i + 1 < lines.len() {
                        push_char(&mut b.text, '\n');
                    }
                    proof {
                        let acc = blocks_view(done@).push(before);
                        let piece = if i + 1 == lines@.len() { lv[i as int] } else { lv[i as int].push('\n') };
                        assert(b.text@ =~= before.text + piece);
                        assert(acc.update(acc.len() - 1, BlockView { text: before.text + piece, ..before })
                            =~= blocks_view(done@).push(b@));
                    }
                    open = Some(b);
                },
                None => {},
            }
        }
        i = i + 1;
    }
    match open {
        Some(b) => {
            proof {
                assert(blocks_view(done@.push(b)) =~= blocks_view(done@).push(b@));
            }
            done.push(b);
        },
        None => {},
    }
    Ok((id, done))
}

/// The place of a known event among the fields of an object: create, step,
/// draw, draw_gui, clean_up.
pub open spec fn event_slot(name: Seq<char>) -> Option<int> {
    if name == seq!['c', 'r', 'e', 'a', 't', 'e'] {
        Some(0)
    } else if name == seq!['s', 't', 'e', 'p'] {
        Some(1)
    } else if name == seq!['d', 'r', 'a', 'w'] {
        Some(2)
    } else if name == seq!['d', 'r', 'a', 'w', '_', 'g', 'u', 'i'] {
        Some(3)
    } else if name == seq!['c', 'l', 'e', 'a', 'n', '_', 'u', 'p'] {
        Some(4)
    } else {
        None
    }
}

/// The first block from `k` on whose name is no known event.
pub open spec fn first_unknown(blocks: Seq<BlockView>, k: int) -> Option<int>
    decreases blocks.len() - k,
{
    if k < 0 || k >= blocks.len() {
        None
    } else if event_slot(blocks[k].name) is None {
        Some(k)
    } else {
        first_unknown(blocks, k + 1)
    }
}

/// The last block before `k` for event `slot`: a later block replaces an
/// earlier one of the same name.
pub open spec fn last_in_slot(blocks: Seq<BlockView>, slot: int, k: int) -> Option<int>
    decreases k,
{
    if k <= 0 || k > blocks.len() {
        None
    } else if event_slot(blocks[k - 1].name) == Some(slot) {
        Some(k - 1)
    } else {
        last_in_slot(blocks, slot, k - 1)
    }
}

impl Object {
    /// The event in field `slot`; see `event_slot`.
    pub open spec fn event(&self, slot: int) -> Option<Event> {
        if slot == 0 {
            self.create
        } else if slot == 1 {
            self.step
        } else if slot == 2 {
            self.draw
        } else if slot == 3 {
            self.draw_gui
        } else {
            self.clean_up
        }
    }
}

/// Tokenizes and parses the source of one event.
pub fn parse_event(src: &String) -> (r: Result<Event, ObjectParseError>)
    requires
        src@.len() < usize::MAX,
    ensures
        match spec_tokenize(src@) {
            Err(e) => r matches Err(ObjectParseError::TokenizeError(x)) && x == e,
            Ok(tv) => match r {
                Ok(ev) => ev.src@ == src@ && ev.wf(),
                Err(ObjectParseError::ParseError(p)) => exists|toks: Seq<Token>|
                    tokens_view(toks) == tv && spec_parse_program(toks) == Err::<crate::ast::Tree, ParseError>(p),
                _ => false,
            },
        },
{
    let cs = chars_of(src.as_str());
    let tokens = match tokenize_chars(cs.as_slice()) {
        Ok(t) => t,
        Err(e) => {
            return Err(ObjectParseError::TokenizeError(e));
        },
    };
    match parse_tks(tokens.as_slice()) {
        Ok(ast) => Ok(Event { src: src.clone(), tokens, ast }),
        Err(e) => Err(ObjectParseError::ParseError(e)),
    }
}

fn same_chars(a: &Vec<char>, b: &Vec<char>) -> (r: bool)
    ensures
        r == (a@ == b@),
{
    if a.len() != b.len() {
        return false;
    }
    let mut k: usize = 0;
    while k < a.len()
        invariant
            a@.len() == b@.len(),
            k <= a@.len(),
            forall|j: int| 0 <= j < k ==> a@[j] == b@[j],
        decreases a@.len() - k,
    {
        if a[k] != b[k] {
            return false;
        }
        k = k + 1;
    }
    assert(a@ =~= b@);
    true
}

fn slot_of(name: &String) -> (r: Option<usize>)
    ensures
        match event_slot(name@) {
            Some(s) => r == Some(s as usize),
            None => r is None,
        },
{
    let cs = chars_of(name.as_str());
    let names: Vec<Vec<char>> = vec![
        vec!['c', 'r', 'e', 'a', 't', 'e'],
        vec!['s', 't', 'e', 'p'],
        vec!['d', 'r', 'a', 'w'],
        vec!['d', 'r', 'a', 'w', '_', 'g', 'u', 'i'],
        vec!['c', 'l', 'e', 'a', 'n', '_', 'u', 'p'],
    ];
    let ghost known: Seq<Seq<char>> = seq![
        seq!['c', 'r', 'e', 'a', 't', 'e'],
        seq!['s', 't', 'e', 'p'],
        seq!['d', 'r', 'a', 'w'],
        seq!['d', 'r', 'a', 'w', '_', 'g', 'u', 'i'],
        seq!['c', 'l', 'e', 'a', 'n', '_', 'u', 'p'],
    ];
    assert(names@.len() == 5);
    assert(forall|j: int| 0 <= j < 5 ==> names@[j]@ =~= #[trigger] known[j]);
    proof {
        assert(known[1][0] != known[2][0] && known[0][0] != known[4][1] && known[3][4] != known[4][4]);
        assert(forall|j: int| 0 <= j < 5 ==> event_slot(#[trigger] known[j]) == Some(j));
    }
    let mut k: usize = 0;
    while k < 5
        invariant
            k <= 5,
            cs@ == name@,
            names@.len() == 5,
            forall|j: int| 0 <= j < 5 ==> names@[j]@ == #[trigger] known[j],
            forall|j: int| 0 <= j < k ==> cs@ != #[trigger] known[j],
            forall|j: int| 0 <= j < 5 ==> event_slot(#[trigger] known[j]) == Some(j),
            known == seq![
                seq!['c', 'r', 'e', 'a', 't', 'e'],
                seq!['s', 't', 'e', 'p'],
                seq!['d', 'r', 'a', 'w'],
                seq!['d', 'r', 'a', 'w', '_', 'g', 'u', 'i'],
                seq!['c', 'l', 'e', 'a', 'n', '_', 'u', 'p'],
            ],
        decreases 5 - k,
    {
        if same_chars(&cs, &names[k]) {
            assert(event_slot(known[k as int]) == Some(k as int));
            return Some(k);
        }
        k = k + 1;
    }
    assert(cs@ != known[0] && cs@ != known[1] && cs@ != known[2] && cs@ != known[3] && cs@ != known[4]);
    None
}

pub open spec fn as_index(o: Option<usize>) -> Option<int> {
    match o {
        Some(j) => Some(j as int),
        None => None,
    }
}

/// The text of the block that counts for event `slot`, if there is one.
pub open spec fn chosen_text(blocks: Seq<BlockView>, slot: int) -> Option<Seq<char>> {
    match last_in_slot(blocks, slot, blocks.len() as int) {
        Some(k) => Some(blocks[k].text),
        None => None,
    }
}

/// The text tokenizes, and the tokens it gives parse.
pub open spec fn parsed_ok(text: Seq<char>) -> bool {
    spec_tokenize(text) matches Ok(tv) && exists|toks: Seq<Token>|
        tokens_view(toks) == tv && #[trigger] spec_parse_program(toks) is Ok
}

/// The text tokenizes, and every token sequence it gives parses.
pub open spec fn event_ok(text: Seq<char>) -> bool {
    spec_tokenize(text) matches Ok(tv) && forall|toks: Seq<Token>|
        tokens_view(toks) == tv ==> #[trigger] spec_parse_program(toks) is Ok
}

/// `e` is the error of tokenizing the text, or of parsing its tokens.
pub open spec fn event_error(text: Seq<char>, e: ObjectParseError) -> bool {
    match e {
        ObjectParseError::TokenizeError(x) => spec_tokenize(text) == Err::<Seq<TokenView>, TokenizeError>(x),
        ObjectParseError::ParseError(p) => spec_tokenize(text) matches Ok(tv) && exists|toks: Seq<Token>|
            tokens_view(toks) == tv && #[trigger] spec_parse_program(toks) == Err::<crate::ast::Tree, ParseError>(p),
        _ => false,
    }
}

/// Event `slot` has no block, or its block tokenizes and parses.
pub open spec fn slot_ok(blocks: Seq<BlockView>, slot: int) -> bool {
    match chosen_text(blocks, slot) {
        Some(x) => parsed_ok(x),
        None => true,
    }
}

/// Every event before `slot`, in the order create, step, draw, draw_gui,
/// clean_up, has no block or one that tokenizes and parses.
pub open spec fn earlier_ok(blocks: Seq<BlockView>, slot: int) -> bool {
    forall|s: int| 0 <= s < slot ==> #[trigger] slot_ok(blocks, s)
}

/// No event's block fails to tokenize or to parse.
pub open spec fn all_events_ok(blocks: Seq<BlockView>) -> bool {
    forall|slot: int| 0 <= slot < 5 ==> match #[trigger] chosen_text(blocks, slot) {
        Some(x) => event_ok(x),
        None => true,
    }
}

/// The event for the block `chosen` points at, if any.
fn event_for(blocks: &Vec<EventBlock>, chosen: Option<usize>) -> (r: Result<Option<Event>, ObjectParseError>)
    requires
        forall|j: int| 0 <= j < blocks@.len() ==> (#[trigger] blocks@[j]).text@.len() < usize::MAX,
        chosen matches Some(k) ==> k < blocks@.len(),
    ensures
        match chosen {
            None => r == Ok::<Option<Event>, ObjectParseError>(None),
            Some(k) => {
                &&& match r {
                    Ok(Some(ev)) => ev.src@ == blocks@[k as int].text@ && ev.wf() && parsed_ok(ev.src@),
                    Ok(None) => false,
                    Err(e) => event_error(blocks@[k as int].text@, e),
                }
                &&& event_ok(blocks@[k as int].text@) ==> r is Ok
            },
        },
{
    match chosen {
        None => Ok(None),
        Some(k) => {
            let text = &blocks[k].text;
            match parse_event(text) {
                Ok(ev) => {
                    assert(tokens_view(ev.tokens@) == spec_tokenize(ev.src@)->Ok_0);
                    assert(spec_parse_program(ev.tokens@) is Ok);
                    Ok(Some(ev))
                },
                Err(e) => Err(e),
            }
        },
    }
}

/// Builds an object from its identifier and event blocks. A block whose name
/// is no known event fails the whole object (the first such block); of two
/// blocks of one event the later one counts; then each event is tokenized
/// and parsed, in the order create, step, draw, draw_gui, clean_up, and the
/// first one that fails gives the error.
pub fn build_object(id: String, blocks: Vec<EventBlock>) -> (r: Result<Object, ObjectParseError>)
    requires
        forall|j: int| 0 <= j < blocks@.len() ==> (#[trigger] blocks@[j]).text@.len() < usize::MAX,
    ensures
        match first_unknown(blocks_view(blocks@), 0) {
            Some(k) => r matches Err(ObjectParseError::UnknownEvent(text, line)) && text@ == blocks@[k].text@
                && line == blocks@[k].line,
            None => {
                &&& match r {
                    Ok(obj) => obj.id@ == id@ && forall|slot: int|
                        0 <= slot < 5 ==> match last_in_slot(blocks_view(blocks@), slot, blocks@.len() as int) {
                            None => #[trigger] obj.event(slot) is None,
                            Some(k) => obj.event(slot) matches Some(ev) && ev.src@ == blocks@[k].text@ && ev.wf(),
                        },
                    Err(e) => exists|slot: int|
                        0 <= slot < 5 && earlier_ok(blocks_view(blocks@), slot) && (#[trigger] chosen_text(
                            blocks_view(blocks@),
                            slot,
                        ) matches Some(x) && event_error(x, e)),
                }
                &&& all_events_ok(blocks_view(blocks@)) ==> r is Ok
            },
        },
{
    let ghost bv = blocks_view(blocks@);
    let mut chosen: Vec<Option<usize>> = vec![None, None, None, None, None];
    let mut k: usize = 0;
    while k < blocks.len()
        invariant
            bv == blocks_view(blocks@),
            k <= blocks@.len(),
            chosen@.len() == 5,
            first_unknown(bv, 0) == first_unknown(bv, k as int),
            forall|s: int| 0 <= s < 5 ==> (#[trigger] chosen@[s] matches Some(j) ==> j < k),
            forall|s: int| 0 <= s < 5 ==> #[trigger] last_in_slot(bv, s, k as int) == as_index(chosen@[s]),
        decreases blocks@.len() - k,
    {
        assert(bv[k as int] == blocks@[k as int]@);
        match slot_of(&blocks[k].name) {
            None => {
                return Err(ObjectParseError::UnknownEvent(blocks[k].text.clone(), blocks[k].line));
            },
            Some(s) => {
                chosen.set(s, Some(k));
                proof {
                    assert forall|t: int| 0 <= t < 5 implies #[trigger] last_in_slot(bv, t, k + 1) == as_index(
                        chosen@[t],
                    ) by {
                        assert(last_in_slot(bv, t, k + 1) == if t == s {
                            Some(k as int)
                        } else {
                            last_in_slot(bv, t, k as int)
                        });
                    }
                }
            },
        }
        k = k + 1;
    }
    assert(first_unknown(bv, k as int) is None);
    proof {
        assert forall|s: int| 0 <= s < 5 implies #[trigger] chosen_text(bv, s) == match chosen@[s] {
            Some(j) => Some(blocks@[j as int].text@),
            None => None::<Seq<char>>,
        } by {
            assert(last_in_slot(bv, s, k as int) == as_index(chosen@[s]));
        }
    }
    let create = match event_for(&blocks, chosen[0]) {
        Ok(e) => e,
        Err(e) => {
            assert(chosen_text(bv, 0) matches Some(x) && event_error(x, e));
            assert(earlier_ok(bv, 0));
            return Err(e);
        },
    };
    assert(slot_ok(bv, 0));
    let step = match event_for(&blocks, chosen[1]) {
        Ok(e) => e,
        Err(e) => {
            assert(chosen_text(bv, 1) matches Some(x) && event_error(x, e));
            assert(earlier_ok(bv, 1));
            return Err(e);
        },
    };
    assert(slot_ok(bv, 1));
    let draw = match event_for(&blocks, chosen[2]) {
        Ok(e) => e,
        Err(e) => {
            assert(chosen_text(bv, 2) matches Some(x) && event_error(x, e));
            assert(earlier_ok(bv, 2));
            return Err(e);
        },
    };
    assert(slot_ok(bv, 2));
    let draw_gui = match event_for(&blocks, chosen[3]) {
        Ok(e) => e,
        Err(e) => {
            assert(chosen_text(bv, 3) matches Some(x) && event_error(x, e));
            assert(earlier_ok(bv, 3));
            return Err(e);
        },
    };
    assert(slot_ok(bv, 3));
    let clean_up = match event_for(&blocks, chosen[4]) {
        Ok(e) => e,
        Err(e) => {
            assert(chosen_text(bv, 4) matches Some(x) && event_error(x, e));
            assert(earlier_ok(bv, 4));
            return Err(e);
        },
    };
    let obj = Object { id, create, step, draw, draw_gui, clean_up };
    assert forall|slot: int| 0 <= slot < 5 implies match last_in_slot(bv, slot, blocks@.len() as int) {
        None => #[trigger] obj.event(slot) is None,
        Some(k) => obj.event(slot) matches Some(ev) && ev.src@ == blocks@[k].text@ && ev.wf(),
    } by {
        assert(last_in_slot(bv, slot, blocks@.len() as int) matches Some(k) ==> 0 <= k < blocks@.len()) by {
            lemma_last_in_slot_bound(bv, slot, blocks@.len() as int);
        }
    }
    Ok(obj)
}

pub proof fn lemma_last_in_slot_bound(blocks: Seq<BlockView>, slot: int, k: int)
    ensures
        last_in_slot(blocks, slot, k) matches Some(j) ==> 0 <= j < k,
    decreases k,
{
    if 0 < k <= blocks.len() && event_slot(blocks[k - 1].name) != Some(slot) {
        lemma_last_in_slot_bound(blocks, slot, k - 1);
    }
}

} // verus!
