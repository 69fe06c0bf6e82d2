//! Lines of text with a title, a prefix and modifiers, joined for printing.

use vstd::prelude::*;
use vstd::string::StringSliceAdditionalSpecFns;
use vstd::utf8::*;
use crate::modifier::{Modifier, ModifierView};
use crate::text::{byte_len, push_text};

verus! {

/// Lines of text and how they are shown.
#[derive(Debug)]
pub struct Lines {
    /// Shown above the lines.
    pub title: Option<String>,
    /// The lines, from top to bottom.
    pub lines: Vec<String>,
    title_prefix: Option<String>,
    prefix: String,
    title_modifier: Option<Modifier>,
    lines_modifier: Modifier,
    spacing: u8,
}

/// What a [`Lines`] holds, as plain values: every text as its bytes.
pub struct LinesView {
    pub title: Option<Seq<u8>>,
    pub lines: Seq<Seq<u8>>,
    /// Stands before the title; where there is none, the prefix of the lines does.
    pub title_prefix: Option<Seq<u8>>,
    /// Stands before each line.
    pub prefix: Seq<u8>,
    /// Is put round the title; where there is none, the modifier of the lines is.
    pub title_modifier: Option<ModifierView>,
    /// Is put round each line.
    pub lines_modifier: ModifierView,
    /// The number of line breaks between two lines.
    pub spacing: u8,
}

/// The bytes of each of `lines`.
pub open spec fn texts_of(lines: Seq<String>) -> Seq<Seq<u8>> {
    Seq::new(lines.len(), |i: int| encode_utf8(lines[i]@))
}

/// `count` line breaks.
pub open spec fn breaks(count: nat) -> Seq<u8>
    decreases count,
{
    if count == 0 {
        Seq::empty()
    } else {
        breaks((count - 1) as nat).push(0x0au8)
    }
}

impl LinesView {
    /// What separates two lines.
    pub open spec fn spacer(self) -> Seq<u8> {
        breaks(self.spacing as nat)
    }

    /// What is put round the title.
    pub open spec fn title_wrapper(self) -> ModifierView {
        match self.title_modifier {
            Some(m) => m,
            None => self.lines_modifier,
        }
    }

    /// The title with its prefix, before the modifier is put round it.
    pub open spec fn title_text(self) -> Seq<u8> {
        (match self.title_prefix {
            Some(p) => p,
            None => self.prefix,
        }) + self.title->0
    }

    /// One line as it is shown: the prefix and the line, with the modifier round
    /// them.
    pub open spec fn line(self, i: int) -> Seq<u8> {
        self.lines_modifier.wrapped(self.prefix + self.lines[i])
    }

    /// The first `n` lines as they are shown, with the spacer between them.  The
    /// spacer stands before a line only if something was shown before it: lines at
    /// the top that show nothing leave no gap.
    pub open spec fn body(self, n: nat) -> Seq<u8>
        decreases n,
    {
        if n == 0 {
            Seq::empty()
        } else {
            let above = self.body((n - 1) as nat);
            if above.len() > 0 {
                above + self.spacer() + self.line(n - 1)
            } else {
                self.line(n - 1)
            }
        }
    }

    /// What is shown above the lines: the title with the modifier round it, and the
    /// spacer where lines follow.  Nothing where there is no title.
    pub open spec fn head(self) -> Seq<u8> {
        if self.title is Some {
            let shown = self.title_wrapper().wrapped(self.title_text());
            if self.lines.len() > 0 {
                shown + self.spacer()
            } else {
                shown
            }
        } else {
            Seq::empty()
        }
    }

    /// Everything as it is shown: the head and the lines.
    pub open spec fn rendered(self) -> Seq<u8> {
        self.head() + self.body(self.lines.len())
    }

    /// True when each modifier can be put round what it is put round.
    pub open spec fn printable(self) -> bool {
        &&& self.title is Some ==> self.title_wrapper().can_wrap(self.title_text())
        &&& forall|i: int|
            0 <= i < self.lines.len() ==> self.lines_modifier.can_wrap(
                self.prefix + #[trigger] self.lines[i],
            )
    }
}

impl View for Lines {
    type V = LinesView;

    closed spec fn view(&self) -> LinesView {
        LinesView {
            title: match self.title {
                Some(t) => Some(encode_utf8(t@)),
                None => None,
            },
            lines: texts_of(self.lines@),
            title_prefix: match self.title_prefix {
                Some(p) => Some(encode_utf8(p@)),
                None => None,
            },
            prefix: encode_utf8(self.prefix@),
            title_modifier: match self.title_modifier {
                Some(m) => Some(m@),
                None => None,
            },
            lines_modifier: self.lines_modifier@,
            spacing: self.spacing,
        }
    }
}

impl Lines {
    /// The given lines with no title, no prefix, no modifier and one line break
    /// between two lines.
    pub fn new(lines: Vec<String>) -> (r: Lines)
        ensures
            r@ == (LinesView {
                title: None,
                lines: texts_of(lines@),
                title_prefix: None,
                prefix: Seq::empty(),
                title_modifier: None,
                lines_modifier: ModifierView::Nothing,
                spacing: 1,
            }),
    {
        Lines {
            title: None,
            lines,
            title_prefix: None,
            prefix: String::new(),
            title_modifier: None,
            lines_modifier: Modifier::Nothing,
            spacing: 1,
        }
    }

    /// Adds lines at the bottom.
    pub fn extend(self, lines: Vec<String>) -> (r: Lines)
        ensures
            r@ == (LinesView { lines: self@.lines + texts_of(lines@), ..self@ }),
    {
        let mut all = self;
        let mut more = lines;
        all.lines.append(&mut more);
        assert(texts_of(all.lines@) =~= self@.lines + texts_of(lines@));
        all
    }

    /// Adds one line at the bottom.
    pub fn extend_one(self, line: &str) -> (r: Lines)
        ensures
            r@ == (LinesView { lines: self@.lines.push(line.spec_bytes()), ..self@ }),
    {
        let mut all = self;
        all.lines.push(line.to_owned());
        assert(texts_of(all.lines@) =~= self@.lines.push(line.spec_bytes()));
        all
    }

    /// Sets the title.
    pub fn title(self, value: &str) -> (r: Lines)
        ensures
            r@ == (LinesView { title: Some(value.spec_bytes()), ..self@ }),
    {
        let mut all = self;
        all.title = Some(value.to_owned());
        all
    }

    /// Sets what stands before the title.
    pub fn title_prefix(self, value: &str) -> (r: Lines)
        ensures
            r@ == (LinesView { title_prefix: Some(value.spec_bytes()), ..self@ }),
    {
        let mut all = self;
        all.title_prefix = Some(value.to_owned());
        all
    }

    /// Sets what is put round the title.
    pub fn title_modifier(self, value: Modifier) -> (r: Lines)
        ensures
            r@ == (LinesView { title_modifier: Some(value@), ..self@ }),
    {
        let mut all = self;
        all.title_modifier = Some(value);
        all
    }

    /// Sets what stands before each line.
    pub fn prefix(self, value: &str) -> (r: Lines)
        ensures
            r@ == (LinesView { prefix: value.spec_bytes(), ..self@ }),
    {
        let mut all = self;
        all.prefix = value.to_owned();
        all
    }

    /// Sets what is put round each line.
    pub fn modifier(self, value: Modifier) -> (r: Lines)
        ensures
            r@ == (LinesView { lines_modifier: value@, ..self@ }),
    {
        let mut all = self;
        all.lines_modifier = value;
        all
    }

    /// Sets the number of line breaks between two lines.
    pub fn spacing(self, value: u8) -> (r: Lines)
        ensures
            r@ == (LinesView { spacing: value, ..self@ }),
    {
        let mut all = self;
        all.spacing = value;
        all
    }

    /// The lines alone, as they were given.
    pub fn into_lines(self) -> (r: Vec<String>)
        ensures
            texts_of(r@) == self@.lines,
    {
        self.lines
    }

    /// Everything as it is shown.
    pub fn to_string(&self) -> (r: String)
        requires
            self@.printable(),
        ensures
            encode_utf8(r@) == self@.rendered(),
    {
        let ghost view = self@;
        let mut spacer = String::new();
        let mut k: u8 = 0;
        assert(encode_utf8(spacer@) =~= breaks(0));
        while k < self.spacing
            invariant
                k <= self.spacing,
                encode_utf8(spacer@) == breaks(k as nat),
            decreases self.spacing - k,
        {
            crate::text::push_ascii(&mut spacer, 0x0a);
            k = k + 1;
        }
        let mut out = String::new();
        if let Some(title) = &self.title {
            let mut text = match &self.title_prefix {
                Some(p) => p.clone(),
                None => self.prefix.clone(),
            };
            push_text(&mut text, title.as_str());
            let shown = match &self.title_modifier {
                Some(m) => m.wraps(text.as_str()),
                None => self.lines_modifier.wraps(text.as_str()),
            };
            push_text(&mut out, shown.as_str());
            if self.lines.len() > 0 {
                push_text(&mut out, spacer.as_str());
            }
        }
        proof {
            assert(encode_utf8(Seq::<char>::empty()) =~= Seq::<u8>::empty());
            assert(encode_utf8(out@) =~= view.head());
        }
        let mut body = String::new();
        let mut i: usize = 0;
        while i < self.lines.len()
            invariant
                i <= self.lines.len(),
                view == self@,
                view.printable(),
                encode_utf8(spacer@) == view.spacer(),
                encode_utf8(body@) == view.body(i as nat),
            decreases self.lines.len() - i,
        {
            let mut text = self.prefix.clone();
            push_text(&mut text, self.lines[i].as_str());
            proof {
                assert(view.lines[i as int] == encode_utf8(self.lines@[i as int]@));
            }
            let shown = self.lines_modifier.wraps(text.as_str());
            if byte_len(body.as_str()) > 0 {
                push_text(&mut body, spacer.as_str());
            }
            push_text(&mut body, shown.as_str());
            proof {
                assert(Seq::<u8>::empty() + view.line(i as int) =~= view.line(i as int));
            }
            i = i + 1;
        }
        push_text(&mut out, body.as_str());
        out
    }
}


impl<'a> From<Vec<&'a str>> for Lines {
    /// The given lines, as [`Lines::new`] takes them.
    fn from(value: Vec<&'a str>) -> (r: Lines)
        ensures
            r@ == (LinesView {
                title: None,
                lines: Seq::new(value@.len(), |i: int| value@[i].spec_bytes()),
                title_prefix: None,
                prefix: Seq::empty(),
                title_modifier: None,
                lines_modifier: ModifierView::Nothing,
                spacing: 1,
            }),
    {
        let mut lines: Vec<String> = Vec::new();
        let mut i: usize = 0;
        while i < value.len()
            invariant
                i <= value.len(),
                lines.len() == i,
                forall|j: int| 0 <= j < i ==> encode_utf8(lines@[j]@) == value@[j].spec_bytes(),
            decreases value.len() - i,
        {
            lines.push(value[i].to_owned());
            i = i + 1;
        }
        assert(texts_of(lines@) =~= Seq::new(value@.len(), |i: int| value@[i].spec_bytes()));
        Lines::new(lines)
    }
}

/// Lines hold strings, which no spec function can build: what the conversion gives
/// is stated by `from` itself, over the plain values.
impl<'a> vstd::std_specs::convert::FromSpecImpl<Vec<&'a str>> for Lines {
    open spec fn obeys_from_spec() -> bool {
        false
    }

    open spec fn from_spec(v: Vec<&'a str>) -> Lines {
        arbitrary()
    }
}

impl From<Lines> for Vec<String> {
    /// The lines alone, as they were given.
    fn from(value: Lines) -> (r: Vec<String>)
        ensures
            texts_of(r@) == value@.lines,
    {
        value.into_lines()
    }
}

/// Strings cannot be built by a spec function: what the conversion gives is stated
/// by `from` itself, over the bytes.
impl vstd::std_specs::convert::FromSpecImpl<Lines> for Vec<String> {
    open spec fn obeys_from_spec() -> bool {
        false
    }

    open spec fn from_spec(v: Lines) -> Vec<String> {
        arbitrary()
    }
}


impl Lines {
    /// Tells whether each modifier can be put round what it is put round.
    pub fn is_printable(&self) -> (r: bool)
        ensures
            r == self@.printable(),
    {
        if let Some(title) = &self.title {
            let mut text = match &self.title_prefix {
                Some(p) => p.clone(),
                None => self.prefix.clone(),
            };
            push_text(&mut text, title.as_str());
            let fits = match &self.title_modifier {
                Some(m) => m.wrappable(text.as_str()),
                None => self.lines_modifier.wrappable(text.as_str()),
            };
            if !fits {
                return false;
            }
        }
        let mut i: usize = 0;
        while i < self.lines.len()
            invariant
                i <= self.lines.len(),
                self@.title is Some ==> self@.title_wrapper().can_wrap(self@.title_text()),
                forall|j: int|
                    0 <= j < i ==> self@.lines_modifier.can_wrap(
                        self@.prefix + #[trigger] self@.lines[j],
                    ),
            decreases self.lines.len() - i,
        {
            let mut text = self.prefix.clone();
            push_text(&mut text, self.lines[i].as_str());
            proof {
                assert(self@.lines[i as int] == encode_utf8(self.lines@[i as int]@));
            }
            if !self.lines_modifier.wrappable(text.as_str()) {
                return false;
            }
            i = i + 1;
        }
        true
    }

    /// Everything as it is shown, if each modifier can be put round what it is put
    /// round.
    pub fn try_to_string(&self) -> (r: Option<String>)
        ensures
            match r {
                Some(text) => self@.printable() && encode_utf8(text@) == self@.rendered(),
                None => !self@.printable(),
            },
    {
        if self.is_printable() {
            Some(self.to_string())
        } else {
            None
        }
    }
}

} // verus!
