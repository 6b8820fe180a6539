//! The on-disk format of an annotation list: one entry per line, fields
//! separated by tabs. In memory an entry holds its fields joined by `:`.

use vstd::prelude::*;
use vstd::string::StrSliceExecFns;
use crate::text::{join, join_on, lemma_split_join, lemma_split_nonempty, split, split_on, views};

verus! {

pub const NEWLINE: u8 = 10;

pub const CARRIAGE_RETURN: u8 = 13;

pub const TAB: u8 = 9;

pub const COLON: u8 = 58;

/// `l` without its last byte when that byte is `b`.
pub open spec fn strip_last(l: Seq<u8>, b: u8) -> Seq<u8> {
    if l.len() > 0 && l.last() == b {
        l.drop_last()
    } else {
        l
    }
}

/// `l` with every `from` byte replaced by `to`.
pub open spec fn replace_byte(l: Seq<u8>, from: u8, to: u8) -> Seq<u8> {
    l.map_values(|x: u8| if x == from { to } else { x })
}

/// The lines of `t` as `str::lines` yields them: split at `\n`, a `\r`
/// before a `\n` dropped, and no final empty line after a trailing `\n`.
pub open spec fn text_lines(t: Seq<u8>) -> Seq<Seq<u8>> {
    let ps = split(t, NEWLINE);
    let n = if ps.last().len() == 0 { ps.len() - 1 } else { ps.len() as int };
    Seq::new(
        n as nat,
        |i: int|
            if i + 1 < ps.len() {
                strip_last(ps[i], CARRIAGE_RETURN)
            } else {
                ps[i]
            },
    )
}

/// The in-memory form of one line: a trailing tab is dropped (it ends the
/// last field rather than starting an empty one) and the remaining tabs
/// become `:`.
pub open spec fn line_entry(l: Seq<u8>) -> Seq<u8> {
    replace_byte(strip_last(l, TAB), TAB, COLON)
}

/// The entries that the text of a list file holds.
pub open spec fn list_entries(t: Seq<u8>) -> Seq<Seq<u8>> {
    text_lines(t).map_values(|l: Seq<u8>| line_entry(l))
}

/// The text of a list file that holds `es`: each entry with `:` turned back
/// into tabs, one per line, with no newline after the last.
pub open spec fn list_text(es: Seq<Seq<u8>>) -> Seq<u8> {
    join(es.map_values(|e: Seq<u8>| replace_byte(e, COLON, TAB)), NEWLINE)
}

/// Entry `e` comes back unchanged from a list file: no newline or tab in it,
/// no `:` at its end (that would be written as a trailing tab), no `\r` at
/// its end unless it is the last entry, and the last entry not empty.
pub open spec fn storable_entry(e: Seq<u8>, is_last: bool) -> bool {
    &&& !e.contains(NEWLINE)
    &&& !e.contains(TAB)
    &&& !(e.len() > 0 && e.last() == COLON)
    &&& !is_last ==> !(e.len() > 0 && e.last() == CARRIAGE_RETURN)
    &&& is_last ==> e.len() > 0
}

/// Every entry of `es` comes back unchanged from a list file.
pub open spec fn storable(es: Seq<Seq<u8>>) -> bool {
    forall|i: int| 0 <= i < es.len() ==> storable_entry(#[trigger] es[i], i == es.len() - 1)
}

proof fn lemma_entry_round_trip(e: Seq<u8>, is_last: bool)
    requires
        storable_entry(e, is_last),
    ensures
        !replace_byte(e, COLON, TAB).contains(NEWLINE),
        line_entry(
            if is_last {
                replace_byte(e, COLON, TAB)
            } else {
                strip_last(replace_byte(e, COLON, TAB), CARRIAGE_RETURN)
            },
        ) == e,
        replace_byte(e, COLON, TAB).len() == e.len(),
{
    let w = replace_byte(e, COLON, TAB);
    assert(!w.contains(NEWLINE)) by {
        if w.contains(NEWLINE) {
            let k = choose|k: int| 0 <= k < w.len() && w[k] == NEWLINE;
            assert(e[k] == NEWLINE);
        }
    }
    if e.len() > 0 {
        assert(w.last() == w[e.len() - 1]);
        assert(e.last() == e[e.len() - 1]);
        assert(e.last() != TAB) by {
            if e.last() == TAB {
                assert(e.contains(TAB));
            }
        }
    }
    if !is_last {
        assert(strip_last(w, CARRIAGE_RETURN) == w);
    }
    assert(strip_last(w, TAB) == w);
    assert forall|k: int| 0 <= k < e.len() implies #[trigger] replace_byte(w, TAB, COLON)[k] == e[k] by {
        if e[k] == TAB {
            assert(e.contains(TAB));
        }
    }
    assert(replace_byte(w, TAB, COLON) =~= e);
}

/// Writing a list and reading the file back gives the same entries, for
/// every list whose entries all come back unchanged.
pub proof fn lemma_text_round_trip(es: Seq<Seq<u8>>)
    requires
        storable(es),
    ensures
        list_entries(list_text(es)) == es,
{
    let ws = es.map_values(|e: Seq<u8>| replace_byte(e, COLON, TAB));
    if es.len() == 0 {
        assert(ws.len() == 0);
        assert(split(Seq::<u8>::empty(), NEWLINE) == seq![Seq::<u8>::empty()]);
        assert(list_entries(list_text(es)) =~= es);
    } else {
        assert forall|i: int| 0 <= i < ws.len() implies !(#[trigger] ws[i]).contains(NEWLINE) by {
            lemma_entry_round_trip(es[i], i == es.len() - 1);
        }
        lemma_split_join(ws, NEWLINE);
        lemma_entry_round_trip(es[es.len() - 1], true);
        assert(ws.last() == ws[ws.len() - 1]);
        let t = list_text(es);
        assert(split(t, NEWLINE) == ws);
        assert(text_lines(t).len() == es.len());
        assert forall|i: int| 0 <= i < es.len() implies #[trigger] list_entries(t)[i] == es[i] by {
            lemma_entry_round_trip(es[i], i == es.len() - 1);
        }
        assert(list_entries(t) =~= es);
    }
}

/// The three annotation lists kept beside each mutation file.
#[derive(Clone, Copy, Debug, PartialEq, Eq, Structural)]
pub enum ListKind {
    Whitelist,
    Blacklist,
    SampleColor,
}

/// The name by which requests and file names refer to list `k`.
pub open spec fn kind_name(k: ListKind) -> Seq<char> {
    match k {
        ListKind::Whitelist => "whitelist"@,
        ListKind::Blacklist => "blacklist"@,
        ListKind::SampleColor => "sample_color"@,
    }
}

/// The list that `name` refers to, if any.
pub open spec fn kind_named(name: Seq<char>) -> Option<ListKind> {
    if name == kind_name(ListKind::Whitelist) {
        Some(ListKind::Whitelist)
    } else if name == kind_name(ListKind::Blacklist) {
        Some(ListKind::Blacklist)
    } else if name == kind_name(ListKind::SampleColor) {
        Some(ListKind::SampleColor)
    } else {
        None
    }
}

/// Whether `a` and `b` hold the same characters.
pub fn str_equal(a: &str, b: &str) -> (r: bool)
    ensures
        r == (a@ == b@),
{
    let n = a.unicode_len();
    if n != b.unicode_len() {
        return false;
    }
    let mut i: usize = 0;
    while i < n
        invariant
            n == a@.len() == b@.len(),
            i <= n,
            a@.take(i as int) == b@.take(i as int),
        decreases n - i,
    {
        if a.get_char(i) != b.get_char(i) {
            assert(a@[i as int] != b@[i as int]);
            return false;
        }
        assert(a@.take(i + 1) =~= b@.take(i + 1));
        i = i + 1;
    }
    assert(a@ =~= a@.take(n as int));
    assert(b@ =~= b@.take(n as int));
    true
}

impl ListKind {
    /// The list that `name` refers to: `whitelist`, `blacklist` or
    /// `sample_color`; `None` for any other name.
    pub fn from_name(name: &str) -> (r: Option<ListKind>)
        ensures
            r == kind_named(name@),
    {
        if str_equal(name, "whitelist") {
            Some(ListKind::Whitelist)
        } else if str_equal(name, "blacklist") {
            Some(ListKind::Blacklist)
        } else if str_equal(name, "sample_color") {
            Some(ListKind::SampleColor)
        } else {
            None
        }
    }

    /// The extension of the list's file beside a root: its name and `.tsv`.
    pub fn file_extension(&self) -> (r: &'static str)
        ensures
            r@ == kind_name(*self) + ".tsv"@,
    {
        proof {
            reveal_strlit("whitelist");
            reveal_strlit("blacklist");
            reveal_strlit("sample_color");
            reveal_strlit(".tsv");
            reveal_strlit("whitelist.tsv");
            reveal_strlit("blacklist.tsv");
            reveal_strlit("sample_color.tsv");
        }
        match self {
            ListKind::Whitelist => {
                assert("whitelist.tsv"@ =~= "whitelist"@ + ".tsv"@);
                "whitelist.tsv"
            },
            ListKind::Blacklist => {
                assert("blacklist.tsv"@ =~= "blacklist"@ + ".tsv"@);
                "blacklist.tsv"
            },
            ListKind::SampleColor => {
                assert("sample_color.tsv"@ =~= "sample_color"@ + ".tsv"@);
                "sample_color.tsv"
            },
        }
    }

    /// The three lists, in the order in which their files are created.
    pub fn all() -> (r: Vec<ListKind>)
        ensures
            r@ == seq![ListKind::Whitelist, ListKind::Blacklist, ListKind::SampleColor],
    {
        let mut r: Vec<ListKind> = Vec::new();
        r.push(ListKind::Whitelist);
        r.push(ListKind::Blacklist);
        r.push(ListKind::SampleColor);
        assert(r@ =~= seq![ListKind::Whitelist, ListKind::Blacklist, ListKind::SampleColor]);
        r
    }
}

/// An annotation list: whitelist, blacklist or sample colors, in file order.
pub struct AnnotationList {
    pub entries: Vec<Vec<u8>>,
}

impl View for AnnotationList {
    type V = Seq<Seq<u8>>;

    open spec fn view(&self) -> Seq<Seq<u8>> {
        views(self.entries@)
    }
}

/// The in-memory entry of the line `piece[..]`, with a trailing `\r` taken
/// off first when `strip_cr` holds.
fn parse_line(piece: &Vec<u8>, strip_cr: bool) -> (r: Vec<u8>)
    ensures
        r@ == line_entry(if strip_cr { strip_last(piece@, CARRIAGE_RETURN) } else { piece@ }),
{
    let ghost l = if strip_cr { strip_last(piece@, CARRIAGE_RETURN) } else { piece@ };
    let mut end: usize = piece.len();
    if strip_cr && end > 0 && piece[end - 1] == CARRIAGE_RETURN {
        end = end - 1;
    }
    assert(l == piece@.take(end as int));
    if end > 0 && piece[end - 1] == TAB {
        end = end - 1;
    }
    assert(strip_last(l, TAB) == piece@.take(end as int));
    let mut out: Vec<u8> = Vec::new();
    let mut j: usize = 0;
    while j < end
        invariant
            j <= end <= piece@.len(),
            out@ == replace_byte(piece@.take(j as int), TAB, COLON),
        decreases end - j,
    {
        let b = piece[j];
        out.push(if b == TAB { COLON } else { b });
        assert(piece@.take(j + 1) == piece@.take(j as int).push(b));
        j = j + 1;
    }
    out
}

impl AnnotationList {
    /// An empty list, as for a file that does not exist yet.
    pub fn new() -> (r: AnnotationList)
        ensures
            r@ == Seq::<Seq<u8>>::empty(),
    {
        AnnotationList { entries: Vec::new() }
    }

    /// Reads the entries of a list file's text.
    pub fn parse(content: &[u8]) -> (r: AnnotationList)
        ensures
            r@ == list_entries(content@),
    {
        let pieces = split_on(content, NEWLINE);
        proof {
            lemma_split_nonempty(content@, NEWLINE);
        }
        let n = pieces.len();
        let keep = if pieces[n - 1].len() == 0 { n - 1 } else { n };
        let mut entries: Vec<Vec<u8>> = Vec::new();
        let mut i: usize = 0;
        while i < keep
            invariant
                keep <= n == pieces@.len(),
                views(pieces@) == split(content@, NEWLINE),
                keep == text_lines(content@).len(),
                i <= keep,
                views(entries@) == list_entries(content@).take(i as int),
            decreases keep - i,
        {
            assert(pieces@[i as int]@ == split(content@, NEWLINE)[i as int]);
            let e = parse_line(&pieces[i], i + 1 < n);
            assert(e@ == list_entries(content@)[i as int]);
            let ghost before = views(entries@);
            entries.push(e);
            assert(views(entries@) =~= before.push(e@));
            assert(list_entries(content@).take(i + 1) =~= before.push(e@));
            i = i + 1;
        }
        AnnotationList { entries }
    }

    /// The text of the list file that holds this list.
    pub fn to_text(&self) -> (r: Vec<u8>)
        ensures
            r@ == list_text(self@),
    {
        let mut lines: Vec<Vec<u8>> = Vec::new();
        let mut i: usize = 0;
        while i < self.entries.len()
            invariant
                i <= self.entries@.len(),
                views(lines@) == self@.take(i as int).map_values(
                    |e: Seq<u8>| replace_byte(e, COLON, TAB),
                ),
            decreases self.entries@.len() - i,
        {
            let e = &self.entries[i];
            let mut line: Vec<u8> = Vec::new();
            let mut j: usize = 0;
            while j < e.len()
                invariant
                    j <= e@.len(),
                    line@ == replace_byte(e@.take(j as int), COLON, TAB),
                decreases e@.len() - j,
            {
                let b = e[j];
                line.push(if b == COLON { TAB } else { b });
                assert(e@.take(j + 1) == e@.take(j as int).push(b));
                j = j + 1;
            }
            assert(e@.take(j as int) == e@);
            assert(e@ == self@[i as int]);
            let ghost before = views(lines@);
            lines.push(line);
            assert(views(lines@) =~= before.push(line@));
            assert(self@.take(i + 1).map_values(|e: Seq<u8>| replace_byte(e, COLON, TAB))
                =~= before.push(line@));
            i = i + 1;
        }
        assert(self@.take(i as int) == self@);
        join_on(&lines, NEWLINE)
    }

    /// The number of entries.
    pub fn len(&self) -> (r: usize)
        ensures
            r == self@.len(),
    {
        self.entries.len()
    }

    /// The entry at `i`, fields joined by `:`.
    pub fn entry(&self, i: usize) -> (r: &[u8])
        requires
            i < self@.len(),
        ensures
            r@ == self@[i as int],
    {
        self.entries[i].as_slice()
    }
}

} // verus!
