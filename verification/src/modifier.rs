//! One type for every modifier, and for several of them in a row.

use vstd::prelude::*;
use vstd::std_specs::convert::{FromSpecImpl, TryFromSpecImpl};
use vstd::std_specs::ops::AddSpecImpl;
use vstd::string::StringSliceAdditionalSpecFns;
use vstd::utf8::*;
use crate::background::Background;
use crate::clear::Clear;
use crate::colour::Colour;
use crate::cursor::MoveCursor;
use crate::error::ModifierError;
use crate::escape_code::{parsed, ANSIEscapeCode, EscapeCodeView};
use crate::intensity::Intensity;
use crate::text::{byte_len, push_text};
use crate::traits::{HasLength, IntoANSIEscapeCode};

verus! {

/// A modifier of any family, a row of modifiers, or none at all.
#[derive(Debug)]
pub enum Modifier {
    Intensity(Intensity),
    Colour(Colour),
    Background(Background),
    Clear(Clear),
    MoveCursor(MoveCursor),
    /// Several modifiers, applied in the order in which they stand.
    Combo(Vec<Modifier>),
    /// The modifier that changes nothing.
    Nothing,
}

/// A [`Modifier`] as a plain value: a row holds a sequence.
pub enum ModifierView {
    Intensity(Intensity),
    Colour(Colour),
    Background(Background),
    Clear(Clear),
    MoveCursor(MoveCursor),
    Combo(Seq<ModifierView>),
    Nothing,
}

/// The plain values of a row of modifiers.
pub open spec fn views(v: Seq<Modifier>) -> Seq<ModifierView> {
    Seq::new(v.len(), |i: int| v[i]@)
}

impl View for Modifier {
    type V = ModifierView;

    open spec fn view(&self) -> ModifierView
        decreases self,
    {
        match self {
            Modifier::Intensity(m) => ModifierView::Intensity(*m),
            Modifier::Colour(m) => ModifierView::Colour(*m),
            Modifier::Background(m) => ModifierView::Background(*m),
            Modifier::Clear(m) => ModifierView::Clear(*m),
            Modifier::MoveCursor(m) => ModifierView::MoveCursor(*m),
            Modifier::Combo(v) => ModifierView::Combo(row_view(v@)),
            Modifier::Nothing => ModifierView::Nothing,
        }
    }
}

/// The plain values of a row of modifiers, built up from the left.
pub open spec fn row_view(v: Seq<Modifier>) -> Seq<ModifierView>
    decreases v,
{
    if v.len() == 0 {
        Seq::empty()
    } else {
        row_view(v.drop_last()).push(v.last().view())
    }
}

/// [`row_view`] gives the plain value of each member, in its place.
pub proof fn lemma_row_view(v: Seq<Modifier>)
    ensures
        row_view(v) == views(v),
    decreases v.len(),
{
    if v.len() > 0 {
        let head = v.drop_last();
        lemma_row_view(head);
        let built = views(head).push(v.last()@);
        assert(built.len() == v.len());
        assert forall|i: int| 0 <= i < v.len() implies built[i] == views(v)[i] by {
            if i < head.len() {
                assert(head[i] == v[i]);
            }
        }
        assert(built =~= views(v));
    } else {
        assert(row_view(v) =~= views(v));
    }
}

/// The plain value of a row is the row of the plain values.
pub proof fn lemma_combo_view(v: Vec<Modifier>)
    ensures
        Modifier::Combo(v)@ == ModifierView::Combo(views(v@)),
{
    lemma_row_view(v@);
}

/// What the modifiers of `ms` write, one after the other.
pub open spec fn texts(ms: Seq<ModifierView>) -> Seq<u8>
    decreases ms,
{
    if ms.len() == 0 {
        Seq::empty()
    } else {
        ms[0].text() + texts(ms.drop_first())
    }
}

/// The number of bytes that the modifiers of `ms` take up together.
pub open spec fn lens(ms: Seq<ModifierView>) -> nat
    decreases ms,
{
    if ms.len() == 0 {
        0
    } else {
        ms[0].len() + lens(ms.drop_first())
    }
}

/// The single modifiers of `ms` in the order in which they stand, rows inside it
/// opened up.
pub open spec fn leaves_of(ms: Seq<ModifierView>) -> Seq<ModifierView>
    decreases ms,
{
    if ms.len() == 0 {
        Seq::empty()
    } else {
        ms[0].leaves() + leaves_of(ms.drop_first())
    }
}

/// True when the two rows are of one length and agree place by place.
pub open spec fn same_rows(a: Seq<ModifierView>, b: Seq<ModifierView>) -> bool
    decreases a,
{
    if a.len() == 0 {
        b.len() == 0
    } else {
        b.len() > 0 && a[0].same_as(b[0]) && same_rows(a.drop_first(), b.drop_first())
    }
}

impl ModifierView {
    /// The control sequence of a single modifier; nothing for a row or for
    /// [`ModifierView::Nothing`].
    pub open spec fn escape_code(self) -> Option<EscapeCodeView> {
        match self {
            ModifierView::Intensity(m) => Some(m.escape_code()),
            ModifierView::Colour(m) => Some(m.escape_code()),
            ModifierView::Background(m) => Some(m.escape_code()),
            ModifierView::Clear(m) => Some(m.escape_code()),
            ModifierView::MoveCursor(m) => Some(m.escape_code()),
            _ => None,
        }
    }

    /// What the modifier writes: its control sequence, or for a row those of its
    /// members in their order.
    pub open spec fn text(self) -> Seq<u8>
        decreases self,
    {
        match self {
            ModifierView::Combo(ms) => texts(ms),
            ModifierView::Nothing => Seq::empty(),
            _ => self.escape_code()->0.text(),
        }
    }

    /// The number of bytes that the modifier takes up when written: for a row the
    /// sum over its members.  Text that the modifier is wrapped around does not count.
    pub open spec fn len(self) -> nat
        decreases self,
    {
        match self {
            ModifierView::Combo(ms) => lens(ms),
            ModifierView::Nothing => 0,
            _ => self.escape_code()->0.text().len(),
        }
    }

    /// The modifiers that take part when `self` is put in a row with others: the
    /// members of a row, none for [`ModifierView::Nothing`], else `self` alone.
    pub open spec fn members(self) -> Seq<ModifierView> {
        match self {
            ModifierView::Combo(ms) => ms,
            ModifierView::Nothing => Seq::empty(),
            _ => seq![self],
        }
    }

    /// `self` and then `other`.  [`ModifierView::Nothing`] leaves the other as it is;
    /// otherwise the result is the row of the members of both, in their order.
    pub open spec fn combined(self, other: ModifierView) -> ModifierView {
        if self is Nothing {
            other
        } else if other is Nothing {
            self
        } else {
            ModifierView::Combo(self.members() + other.members())
        }
    }

    /// The single modifiers in the order in which they are applied, with every row
    /// opened up, however deep.
    pub open spec fn leaves(self) -> Seq<ModifierView>
        decreases self,
    {
        match self {
            ModifierView::Combo(ms) => leaves_of(ms),
            ModifierView::Nothing => Seq::empty(),
            _ => seq![self],
        }
    }

    /// What `==` means: the same modifier, where two moves of the cursor count as the
    /// same as [`MoveCursor::same_as`] says, and two rows when they agree place by
    /// place.
    pub open spec fn same_as(self, other: ModifierView) -> bool
        decreases self,
    {
        match (self, other) {
            (ModifierView::Intensity(a), ModifierView::Intensity(b)) => a == b,
            (ModifierView::Colour(a), ModifierView::Colour(b)) => a == b,
            (ModifierView::Background(a), ModifierView::Background(b)) => a == b,
            (ModifierView::Clear(a), ModifierView::Clear(b)) => a == b,
            (ModifierView::MoveCursor(a), ModifierView::MoveCursor(b)) => a.same_as(b),
            (ModifierView::Combo(a), ModifierView::Combo(b)) => same_rows(a, b),
            (ModifierView::Nothing, ModifierView::Nothing) => true,
            _ => false,
        }
    }
}

impl Modifier {
    /// What a control sequence means.  The families are asked in the order intensity,
    /// colour, background, clearing, move of the cursor; the first that accepts the
    /// sequence decides.  Why the others refused is not reported.
    pub open spec fn decoded(c: EscapeCodeView) -> Result<Modifier, ModifierError> {
        if let Ok(m) = Intensity::decoded(c) {
            Ok(Modifier::Intensity(m))
        } else if let Ok(m) = Colour::decoded(c) {
            Ok(Modifier::Colour(m))
        } else if let Ok(m) = Background::decoded(c) {
            Ok(Modifier::Background(m))
        } else if let Ok(m) = Clear::decoded(c) {
            Ok(Modifier::Clear(m))
        } else if let Ok(m) = MoveCursor::decoded(c) {
            Ok(Modifier::MoveCursor(m))
        } else {
            Err(ModifierError::UnsupportedCode { code: c.code, terminator: c.end_char })
        }
    }

    /// The intensity of the given name, as a modifier.
    pub fn intensity(name: &str) -> (r: Option<Modifier>)
        ensures
            match r {
                Some(m) => m matches Modifier::Intensity(i) && i.spec_name() == name@,
                None => forall|i: Intensity| i.spec_name() != name@,
            },
    {
        match Intensity::by_name(name) {
            Some(i) => Some(Modifier::Intensity(i)),
            None => None,
        }
    }

    /// The colour of the given name, as a modifier of the text.
    pub fn colour(name: &str) -> (r: Option<Modifier>)
        ensures
            match r {
                Some(m) => m matches Modifier::Colour(c) && c.spec_name() == name@,
                None => forall|c: Colour| c.spec_name() != name@,
            },
    {
        match Colour::by_name(name) {
            Some(c) => Some(Modifier::Colour(c)),
            None => None,
        }
    }

    /// The colour of the given name, as a modifier of what is behind the text.
    pub fn background(name: &str) -> (r: Option<Modifier>)
        ensures
            match r {
                Some(m) => m matches Modifier::Background(c) && c.spec_name() == name@,
                None => forall|c: Background| c.spec_name() != name@,
            },
    {
        match Background::by_name(name) {
            Some(c) => Some(Modifier::Background(c)),
            None => None,
        }
    }

    /// Appends to `out` what the modifier writes.
    pub fn write_to(&self, out: &mut String)
        ensures
            encode_utf8(final(out)@) == encode_utf8(old(out)@) + self@.text(),
        decreases self,
    {
        match self {
            Modifier::Intensity(m) => {
                let written = m.to_string();
                push_text(out, written.as_str());
            },
            Modifier::Colour(m) => {
                let written = m.to_string();
                push_text(out, written.as_str());
            },
            Modifier::Background(m) => {
                let written = m.to_string();
                push_text(out, written.as_str());
            },
            Modifier::Clear(m) => {
                let written = m.to_string();
                push_text(out, written.as_str());
            },
            Modifier::MoveCursor(m) => {
                let written = m.to_string();
                push_text(out, written.as_str());
            },
            Modifier::Nothing => {
                assert(encode_utf8(out@) + self@.text() =~= encode_utf8(out@));
            },
            Modifier::Combo(v) => {
                let ghost all = views(v@);
                let ghost start = encode_utf8(out@);
                proof {
                    lemma_combo_view(*v);
                    assert(all.subrange(0, 0) =~= Seq::<ModifierView>::empty());
                    assert(start + texts(all.subrange(0, 0)) =~= start);
                }
                let mut i: usize = 0;
                while i < v.len()
                    invariant
                        i <= v.len(),
                        self is Combo,
                        self->Combo_0 == *v,
                        all == views(v@),
                        encode_utf8(out@) == start + texts(all.subrange(0, i as int)),
                    decreases v.len() - i,
                {
                    v[i].write_to(out);
                    proof {
                        let done = all.subrange(0, i as int);
                        lemma_texts_concat(done, seq![all[i as int]]);
                        assert(done + seq![all[i as int]] =~= all.subrange(0, i + 1));
                        lemma_texts_one(all[i as int]);
                        assert(start + texts(done) + all[i as int].text() =~= start + (texts(done)
                            + all[i as int].text()));
                    }
                    i = i + 1;
                }
                proof {
                    assert(all.subrange(0, v.len() as int) =~= all);
                }
            },
        }
    }

    /// What the modifier writes: its control sequence, or for a row those of its
    /// members in their order.
    pub fn to_string(&self) -> (r: String)
        ensures
            encode_utf8(r@) == self@.text(),
    {
        let mut out = String::new();
        self.write_to(&mut out);
        assert(encode_utf8(Seq::<char>::empty()) + self@.text() =~= self@.text());
        out
    }
}

/// A row of one modifier writes what the modifier writes.
pub proof fn lemma_texts_one(m: ModifierView)
    ensures
        texts(seq![m]) == m.text(),
{
    let row = seq![m];
    assert(row.drop_first() =~= Seq::<ModifierView>::empty());
    assert(texts(row.drop_first()) =~= Seq::<u8>::empty());
    assert(texts(row) =~= m.text());
}

/// What two rows write one after the other is what the joined row writes.
pub proof fn lemma_texts_concat(a: Seq<ModifierView>, b: Seq<ModifierView>)
    ensures
        texts(a + b) == texts(a) + texts(b),
    decreases a.len(),
{
    if a.len() == 0 {
        assert(a + b =~= b);
        assert(texts(a) + texts(b) =~= texts(b));
    } else {
        lemma_texts_concat(a.drop_first(), b);
        assert((a + b).drop_first() =~= a.drop_first() + b);
        assert((a + b)[0] == a[0]);
        assert(texts(a + b) =~= texts(a) + texts(b));
    }
}

/// A row takes up as many bytes as it writes.
pub proof fn lemma_lens_are_text_lens(ms: Seq<ModifierView>)
    ensures
        lens(ms) == texts(ms).len(),
    decreases ms,
{
    if ms.len() > 0 {
        lemma_len_is_text_len(ms[0]);
        lemma_lens_are_text_lens(ms.drop_first());
    }
}

/// A modifier takes up as many bytes as it writes.
pub proof fn lemma_len_is_text_len(m: ModifierView)
    ensures
        m.len() == m.text().len(),
    decreases m,
{
    match m {
        ModifierView::Combo(ms) => lemma_lens_are_text_lens(ms),
        _ => {},
    }
}

impl HasLength for Modifier {
    open spec fn spec_len(&self) -> nat {
        self@.len()
    }

    /// The number of bytes that the modifier takes up when written.
    fn len(&self) -> (n: usize) {
        let written = self.to_string();
        proof {
            lemma_len_is_text_len(self@);
        }
        byte_len(written.as_str())
    }
}

impl Clone for Modifier {
    fn clone(&self) -> (r: Modifier)
        ensures
            r@ == self@,
        decreases self,
    {
        match self {
            Modifier::Intensity(m) => Modifier::Intensity(*m),
            Modifier::Colour(m) => Modifier::Colour(*m),
            Modifier::Background(m) => Modifier::Background(*m),
            Modifier::Clear(m) => Modifier::Clear(*m),
            Modifier::MoveCursor(m) => Modifier::MoveCursor(*m),
            Modifier::Nothing => Modifier::Nothing,
            Modifier::Combo(v) => {
                let mut out: Vec<Modifier> = Vec::new();
                let mut i: usize = 0;
                while i < v.len()
                    invariant
                        i <= v.len(),
                        out.len() == i,
                        forall|j: int| 0 <= j < i ==> out@[j]@ == v@[j]@,
                        self is Combo,
                        self->Combo_0 == *v,
                    decreases v.len() - i,
                {
                    let member = v[i].clone();
                    out.push(member);
                    i = i + 1;
                }
                proof {
                    lemma_combo_view(*v);
                    lemma_combo_view(out);
                    assert(views(out@) =~= views(v@));
                }
                Modifier::Combo(out)
            },
        }
    }
}

/// Two rows agree place by place exactly when [`same_rows`] says so.
pub proof fn lemma_same_rows(a: Seq<ModifierView>, b: Seq<ModifierView>)
    ensures
        same_rows(a, b) <==> (a.len() == b.len() && forall|i: int|
            0 <= i < a.len() ==> (#[trigger] a[i]).same_as(b[i])),
    decreases a.len(),
{
    if a.len() > 0 && b.len() > 0 {
        let x = a.drop_first();
        let y = b.drop_first();
        lemma_same_rows(x, y);
        if same_rows(a, b) {
            assert forall|i: int| 0 <= i < a.len() implies (#[trigger] a[i]).same_as(b[i]) by {
                if i > 0 {
                    assert(a[i] == x[i - 1]);
                    assert(b[i] == y[i - 1]);
                }
            }
        }
        if a.len() == b.len() && (forall|i: int|
            0 <= i < a.len() ==> (#[trigger] a[i]).same_as(b[i])) {
            assert forall|i: int| 0 <= i < x.len() implies (#[trigger] x[i]).same_as(y[i]) by {
                assert(x[i] == a[i + 1]);
                assert(y[i] == b[i + 1]);
            }
        }
    }
}

impl PartialEq for Modifier {
    fn eq(&self, other: &Modifier) -> (r: bool)
        decreases self,
    {
        match (self, other) {
            (Modifier::Intensity(a), Modifier::Intensity(b)) => *a == *b,
            (Modifier::Colour(a), Modifier::Colour(b)) => *a == *b,
            (Modifier::Background(a), Modifier::Background(b)) => *a == *b,
            (Modifier::Clear(a), Modifier::Clear(b)) => *a == *b,
            (Modifier::MoveCursor(a), Modifier::MoveCursor(b)) => *a == *b,
            (Modifier::Nothing, Modifier::Nothing) => true,
            (Modifier::Combo(v), Modifier::Combo(w)) => {
                proof {
                    lemma_combo_view(*v);
                    lemma_combo_view(*w);
                    lemma_same_rows(views(v@), views(w@));
                }
                if v.len() != w.len() {
                    return false;
                }
                let mut i: usize = 0;
                while i < v.len()
                    invariant
                        i <= v.len(),
                        v.len() == w.len(),
                        forall|j: int| 0 <= j < i ==> (#[trigger] views(v@)[j]).same_as(views(w@)[j]),
                        self is Combo,
                        self->Combo_0 == *v,
                        other is Combo,
                        other->Combo_0 == *w,
                        self@ == ModifierView::Combo(views(v@)),
                        other@ == ModifierView::Combo(views(w@)),
                        same_rows(views(v@), views(w@)) <==> (views(v@).len() == views(w@).len()
                            && forall|j: int|
                            0 <= j < views(v@).len() ==> (#[trigger] views(v@)[j]).same_as(
                                views(w@)[j],
                            )),
                    decreases v.len() - i,
                {
                    if !v[i].eq(&w[i]) {
                        proof {
                            assert(!views(v@)[i as int].same_as(views(w@)[i as int]));
                        }
                        return false;
                    }
                    i = i + 1;
                }
                true
            },
            _ => false,
        }
    }
}

impl vstd::std_specs::cmp::PartialEqSpecImpl for Modifier {
    open spec fn obeys_eq_spec() -> bool {
        true
    }

    open spec fn eq_spec(&self, other: &Modifier) -> bool {
        self@.same_as(other@)
    }
}

/// The members that `m` brings into a row.
fn into_members(m: Modifier) -> (v: Vec<Modifier>)
    ensures
        views(v@) == m@.members(),
{
    match m {
        Modifier::Combo(v) => {
            proof {
                lemma_combo_view(v);
            }
            v
        },
        Modifier::Nothing => {
            let v = Vec::new();
            assert(views(v@) =~= m@.members());
            v
        },
        other => {
            let ghost view = other@;
            let mut v = Vec::new();
            v.push(other);
            assert(views(v@) =~= seq![view]);
            v
        },
    }
}

impl core::ops::Add for Modifier {
    type Output = Modifier;

    /// `self` and then `rhs`: see [`ModifierView::combined`].
    fn add(self, rhs: Modifier) -> (r: Modifier)
        ensures
            r@ == self@.combined(rhs@),
    {
        match (self, rhs) {
            (Modifier::Nothing, b) => b,
            (a, Modifier::Nothing) => a,
            (a, b) => {
                let mut left = into_members(a);
                let mut right = into_members(b);
                let ghost l0 = left@;
                let ghost r0 = right@;
                left.append(&mut right);
                proof {
                    lemma_combo_view(left);
                    assert(views(left@) =~= views(l0) + views(r0));
                }
                Modifier::Combo(left)
            },
        }
    }
}

/// A row holds a `Vec`, which no spec function can build: what `+` gives is stated
/// by `add` itself, over the plain values.
impl AddSpecImpl for Modifier {
    open spec fn obeys_add_spec() -> bool {
        false
    }

    open spec fn add_req(self, rhs: Modifier) -> bool {
        true
    }

    open spec fn add_spec(self, rhs: Modifier) -> Modifier {
        arbitrary()
    }
}

impl core::ops::AddAssign for Modifier {
    /// Puts `other` after `self`: see [`ModifierView::combined`].
    fn add_assign(&mut self, other: Modifier)
        ensures
            final(self)@ == old(self)@.combined(other@),
    {
        let mut current = Modifier::Nothing;
        core::mem::swap(self, &mut current);
        *self = current + other;
    }
}

impl<'a> TryFrom<&'a ANSIEscapeCode> for Modifier {
    type Error = ModifierError;

    /// Finds what a control sequence means.
    fn try_from(value: &'a ANSIEscapeCode) -> (r: Result<Modifier, ModifierError>) {
        if let Ok(m) = Intensity::try_from(value) {
            Ok(Modifier::Intensity(m))
        } else if let Ok(m) = Colour::try_from(value) {
            Ok(Modifier::Colour(m))
        } else if let Ok(m) = Background::try_from(value) {
            Ok(Modifier::Background(m))
        } else if let Ok(m) = Clear::try_from(value) {
            Ok(Modifier::Clear(m))
        } else if let Ok(m) = MoveCursor::try_from(value) {
            Ok(Modifier::MoveCursor(m))
        } else {
            Err(ModifierError::UnsupportedCode { code: value.code, terminator: value.end_char })
        }
    }
}

impl<'a> TryFromSpecImpl<&'a ANSIEscapeCode> for Modifier {
    open spec fn obeys_try_from_spec() -> bool {
        true
    }

    open spec fn try_from_spec(v: &'a ANSIEscapeCode) -> Result<Modifier, ModifierError> {
        Modifier::decoded(v@)
    }
}

impl TryFrom<ANSIEscapeCode> for Modifier {
    type Error = ModifierError;

    fn try_from(value: ANSIEscapeCode) -> (r: Result<Modifier, ModifierError>) {
        Modifier::try_from(&value)
    }
}

impl TryFromSpecImpl<ANSIEscapeCode> for Modifier {
    open spec fn obeys_try_from_spec() -> bool {
        true
    }

    open spec fn try_from_spec(v: ANSIEscapeCode) -> Result<Modifier, ModifierError> {
        Modifier::decoded(v@)
    }
}

impl<'a> TryFrom<&'a str> for Modifier {
    type Error = ModifierError;

    /// Reads the control sequence that `value` begins with and finds what it means.
    /// Where the text begins with no control sequence, the reason for that is handed
    /// on unchanged.
    fn try_from(value: &'a str) -> (r: Result<Modifier, ModifierError>) {
        match ANSIEscapeCode::try_from(value) {
            Ok(code) => Modifier::try_from(&code),
            Err(e) => Err(e),
        }
    }
}

impl<'a> TryFromSpecImpl<&'a str> for Modifier {
    open spec fn obeys_try_from_spec() -> bool {
        true
    }

    open spec fn try_from_spec(v: &'a str) -> Result<Modifier, ModifierError> {
        match parsed(v.spec_bytes()) {
            Ok(c) => Modifier::decoded(c),
            Err(e) => Err(e),
        }
    }
}

impl From<Intensity> for Modifier {
    fn from(value: Intensity) -> (r: Modifier) {
        Modifier::Intensity(value)
    }
}

impl FromSpecImpl<Intensity> for Modifier {
    open spec fn obeys_from_spec() -> bool {
        true
    }

    open spec fn from_spec(v: Intensity) -> Modifier {
        Modifier::Intensity(v)
    }
}

impl From<Colour> for Modifier {
    fn from(value: Colour) -> (r: Modifier) {
        Modifier::Colour(value)
    }
}

impl FromSpecImpl<Colour> for Modifier {
    open spec fn obeys_from_spec() -> bool {
        true
    }

    open spec fn from_spec(v: Colour) -> Modifier {
        Modifier::Colour(v)
    }
}

impl From<Background> for Modifier {
    fn from(value: Background) -> (r: Modifier) {
        Modifier::Background(value)
    }
}

impl FromSpecImpl<Background> for Modifier {
    open spec fn obeys_from_spec() -> bool {
        true
    }

    open spec fn from_spec(v: Background) -> Modifier {
        Modifier::Background(v)
    }
}

impl From<Clear> for Modifier {
    fn from(value: Clear) -> (r: Modifier) {
        Modifier::Clear(value)
    }
}

impl FromSpecImpl<Clear> for Modifier {
    open spec fn obeys_from_spec() -> bool {
        true
    }

    open spec fn from_spec(v: Clear) -> Modifier {
        Modifier::Clear(v)
    }
}

impl From<MoveCursor> for Modifier {
    fn from(value: MoveCursor) -> (r: Modifier) {
        Modifier::MoveCursor(value)
    }
}

impl FromSpecImpl<MoveCursor> for Modifier {
    open spec fn obeys_from_spec() -> bool {
        true
    }

    open spec fn from_spec(v: MoveCursor) -> Modifier {
        Modifier::MoveCursor(v)
    }
}

} // verus!

