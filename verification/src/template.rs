//! The output template: a skeleton of text lines, some of which mark a named
//! section, and the fragments that the emitters append to each section.
//!
//! A line of the skeleton that begins with `# header ` marks the section
//! named by the rest of the line. The sections are declared in the order in
//! which their first markers stand. The built text is the skeleton with each
//! marker line replaced by the fragments of its section, one per line.

use vstd::prelude::*;
use crate::error::AsmError;
use crate::text::{
    chars_of, contains, join, join_lines, lemma_lines_join, lines, same_text, split_lines,
    starts_with, text_contains, text_starts_with, texts,
};

verus! {

/// One line of the skeleton, as the contracts see it.
pub enum PieceView {
    /// A line that is copied to the output.
    Text(Seq<char>),
    /// A line that stands for the section of this name.
    Marker(Seq<char>),
}

/// One section, as the contracts see it.
pub struct SectionView {
    pub name: Seq<char>,
    pub fragments: Seq<Seq<char>>,
}

/// The template, as the contracts see it.
#[verifier::ext_equal]
pub struct TemplateView {
    /// The lines of the skeleton.
    pub pieces: Seq<PieceView>,
    /// The declared sections, in the order of their declaration.
    pub sections: Seq<SectionView>,
    /// The name of the section that receives the code.
    pub active: Seq<char>,
}

/// The index of the first of the first `n` sections that is named `name`.
pub open spec fn section_index(sections: Seq<SectionView>, name: Seq<char>, n: nat) -> Option<int>
    decreases n,
{
    if n == 0 || n > sections.len() {
        None
    } else {
        match section_index(sections, name, (n - 1) as nat) {
            Some(i) => Some(i),
            None => if sections[n - 1].name == name {
                Some(n - 1)
            } else {
                None
            },
        }
    }
}

/// What marks a section in the skeleton.
pub open spec fn marker() -> Seq<char> {
    "# header "@
}

/// What a line of the skeleton stands for.
pub open spec fn piece_of(line: Seq<char>) -> PieceView {
    if starts_with(line, marker()) {
        PieceView::Marker(line.subrange(marker().len() as int, line.len() as int))
    } else {
        PieceView::Text(line)
    }
}

/// The pieces that the first `n` lines of a skeleton stand for.
pub open spec fn pieces_of(lines: Seq<Seq<char>>, n: nat) -> Seq<PieceView>
    decreases n,
{
    if n == 0 || n > lines.len() {
        Seq::empty()
    } else {
        pieces_of(lines, (n - 1) as nat).push(piece_of(lines[n - 1]))
    }
}

/// The sections that the first `n` pieces declare: one for each name, empty,
/// in the order of the first markers.
pub open spec fn declared(pieces: Seq<PieceView>, n: nat) -> Seq<SectionView>
    decreases n,
{
    if n == 0 || n > pieces.len() {
        Seq::empty()
    } else {
        let before = declared(pieces, (n - 1) as nat);
        match pieces[n - 1] {
            PieceView::Marker(name) => if section_index(before, name, before.len()) is None {
                before.push(SectionView { name, fragments: Seq::empty() })
            } else {
                before
            },
            PieceView::Text(_) => before,
        }
    }
}

impl TemplateView {
    /// The template that a skeleton stands for, with nothing appended yet.
    /// The code goes to the section `CODE`.
    pub open spec fn parse(skeleton: Seq<char>) -> TemplateView {
        let pieces = pieces_of(lines(skeleton), lines(skeleton).len());
        TemplateView { pieces, sections: declared(pieces, pieces.len()), active: "CODE"@ }
    }

    /// The index of the section `name`, if the template declares it.
    pub open spec fn find(self, name: Seq<char>) -> Option<int> {
        section_index(self.sections, name, self.sections.len())
    }

    /// Whether the template declares the section `name`.
    pub open spec fn declares(self, name: Seq<char>) -> bool {
        self.find(name) is Some
    }

    /// This template with `text` appended to the section `name`; unchanged
    /// where no such section is declared.
    pub open spec fn append(self, name: Seq<char>, text: Seq<char>) -> TemplateView {
        match self.find(name) {
            Some(i) => TemplateView {
                sections: self.sections.update(
                    i,
                    SectionView {
                        name: self.sections[i].name,
                        fragments: self.sections[i].fragments.push(text),
                    },
                ),
                ..self
            },
            None => self,
        }
    }

    /// This template with the code going to the section `name`.
    pub open spec fn with_active(self, name: Seq<char>) -> TemplateView {
        TemplateView { active: name, ..self }
    }

    /// The text of the section `name`: its fragments, one per line. Empty
    /// where no such section is declared.
    pub open spec fn section_text(self, name: Seq<char>) -> Seq<char> {
        match self.find(name) {
            Some(i) => join(self.sections[i].fragments, '\n'),
            None => Seq::empty(),
        }
    }

    /// The text that a line of the skeleton becomes.
    pub open spec fn piece_text(self, piece: PieceView) -> Seq<char> {
        match piece {
            PieceView::Text(line) => line,
            PieceView::Marker(name) => self.section_text(name),
        }
    }

    /// The texts that the first `n` lines of the skeleton become.
    pub open spec fn piece_texts(self, n: nat) -> Seq<Seq<char>>
        decreases n,
    {
        if n == 0 || n > self.pieces.len() {
            Seq::empty()
        } else {
            self.piece_texts((n - 1) as nat).push(self.piece_text(self.pieces[n - 1]))
        }
    }

    /// The built text: the skeleton, each marker replaced by its section.
    pub open spec fn build(self) -> Seq<char> {
        join(self.piece_texts(self.pieces.len()), '\n')
    }
}

/// A template and, where an emitter was refused on it, the reason.
pub struct Emission {
    pub template: TemplateView,
    pub error: Option<AsmError>,
}

impl TemplateView {
    /// What appending `text` to the section `name` leads to: refused, with
    /// nothing changed, where no such section is declared.
    pub open spec fn emit(self, name: Seq<char>, text: Seq<char>) -> Emission {
        if self.declares(name) {
            Emission { template: self.append(name, text), error: None }
        } else {
            Emission { template: self, error: Some(AsmError::UndeclaredSection) }
        }
    }

    /// What appending `text` to the section that receives the code leads to.
    pub open spec fn emit_code(self, text: Seq<char>) -> Emission {
        self.emit(self.active, text)
    }
}

impl Emission {
    /// What a further append leads to, unless an earlier one was refused.
    pub open spec fn then_emit(self, name: Seq<char>, text: Seq<char>) -> Emission {
        if self.error is Some {
            self
        } else {
            self.template.emit(name, text)
        }
    }

    /// What a further append of code leads to, unless an earlier one was
    /// refused.
    pub open spec fn then_emit_code(self, text: Seq<char>) -> Emission {
        if self.error is Some {
            self
        } else {
            self.template.emit_code(text)
        }
    }
}

/// The result that stands for an error or for none.
pub open spec fn result_of(error: Option<AsmError>) -> Result<(), AsmError> {
    match error {
        Some(e) => Err(e),
        None => Ok(()),
    }
}

/// Once a section of the name is found, more sections do not change which.
pub proof fn lemma_section_index_stable(
    sections: Seq<SectionView>,
    name: Seq<char>,
    n: nat,
    m: nat,
)
    requires
        n <= m <= sections.len(),
        section_index(sections, name, n) is Some,
    ensures
        section_index(sections, name, m) == section_index(sections, name, n),
    decreases m,
{
    if n < m {
        lemma_section_index_stable(sections, name, n, (m - 1) as nat);
    }
}

/// One line of the skeleton.
#[derive(Debug, PartialEq, Eq)]
pub enum TemplatePiece {
    /// A line that is copied to the output.
    Text(String),
    /// A line that stands for the section of this name.
    Marker(String),
}

/// One section and what was appended to it.
#[derive(Debug, PartialEq, Eq)]
pub struct TemplateSection {
    pub name: String,
    pub fragments: Vec<String>,
}

/// The output template.
#[derive(Debug, PartialEq, Eq)]
pub struct Template {
    /// The lines of the skeleton.
    pub pieces: Vec<TemplatePiece>,
    /// The declared sections, in the order of their declaration.
    pub sections: Vec<TemplateSection>,
    /// The name of the section that receives the code.
    pub current_code_section: String,
}

impl View for TemplatePiece {
    type V = PieceView;

    open spec fn view(&self) -> PieceView {
        match self {
            TemplatePiece::Text(line) => PieceView::Text(line@),
            TemplatePiece::Marker(name) => PieceView::Marker(name@),
        }
    }
}

impl View for TemplateSection {
    type V = SectionView;

    open spec fn view(&self) -> SectionView {
        SectionView { name: self.name@, fragments: texts(self.fragments@) }
    }
}

impl View for Template {
    type V = TemplateView;

    open spec fn view(&self) -> TemplateView {
        TemplateView {
            pieces: self.pieces@.map_values(|p: TemplatePiece| p@),
            sections: self.sections@.map_values(|s: TemplateSection| s@),
            active: self.current_code_section@,
        }
    }
}

impl Template {
    /// Reads a skeleton. Nothing is appended yet, and the code goes to the
    /// section `CODE`.
    pub fn new(skeleton: &str) -> (t: Template)
        ensures
            t@ == TemplateView::parse(skeleton@),
    {
        let skeleton_lines = split_lines(skeleton);
        let prefix = "# header ";
        let prefix_len = chars_of(prefix).len();
        let mut t = Template {
            pieces: Vec::new(),
            sections: Vec::new(),
            current_code_section: String::from_str("CODE"),
        };
        let ghost all = lines(skeleton@);
        let mut i: usize = 0;
        assert(t@.pieces =~= pieces_of(all, 0));
        assert(t@.sections =~= declared(t@.pieces, 0));
        while i < skeleton_lines.len()
            invariant
                i <= skeleton_lines.len(),
                texts(skeleton_lines@) == all,
                prefix@ == marker(),
                prefix_len == marker().len(),
                t@.active == "CODE"@,
                t.pieces.len() == i,
                t@.pieces == pieces_of(all, i as nat),
                t@.sections == declared(t@.pieces, i as nat),
            decreases skeleton_lines.len() - i,
        {
            let line = skeleton_lines[i].as_str();
            assert(line@ == all[i as int]);
            let ghost before = t@;
            let piece = if text_starts_with(line, prefix) {
                let length = chars_of(line).len();
                let name = line.substring_char(prefix_len, length);
                if t.find_section(name).is_none() {
                    let section = TemplateSection {
                        name: String::from_str(name),
                        fragments: Vec::new(),
                    };
                    assert(section@.fragments =~= Seq::<Seq<char>>::empty());
                    t.sections.push(section);
                    assert(t@.sections =~= before.sections.push(
                        SectionView { name: name@, fragments: Seq::empty() },
                    ));
                }
                TemplatePiece::Marker(String::from_str(name))
            } else {
                TemplatePiece::Text(String::from_str(line))
            };
            assert(piece@ == piece_of(all[i as int]));
            let ghost declared_now = t@.sections;
            t.pieces.push(piece);
            assert(t@.pieces =~= before.pieces.push(piece_of(all[i as int])));
            assert(t@.sections =~= declared_now);
            proof {
                lemma_declared_prefix(t@.pieces, before.pieces, i as nat);
            }
            i = i + 1;
        }
        assert(t@ =~= TemplateView::parse(skeleton@));
        t
    }

    /// The index of the section `name`, if the template declares it.
    pub fn find_section(&self, name: &str) -> (found: Option<usize>)
        ensures
            match found {
                Some(i) => self@.find(name@) == Some(i as int) && i < self.sections.len(),
                None => self@.find(name@) is None,
            },
    {
        let ghost sections = self@.sections;
        let mut i: usize = 0;
        while i < self.sections.len()
            invariant
                i <= self.sections.len(),
                sections == self@.sections,
                section_index(sections, name@, i as nat) is None,
            decreases self.sections.len() - i,
        {
            if same_text(self.sections[i].name.as_str(), name) {
                proof {
                    assert(section_index(sections, name@, (i + 1) as nat) == Some(i as int));
                    lemma_section_index_stable(
                        sections,
                        name@,
                        (i + 1) as nat,
                        sections.len(),
                    );
                }
                return Some(i);
            }
            i = i + 1;
        }
        None
    }

    /// Whether the template declares the section `name`.
    pub fn has_section(&self, name: &str) -> (found: bool)
        ensures
            found == self@.declares(name@),
    {
        self.find_section(name).is_some()
    }

    /// Appends `text` to the section `name`. Fails, and changes nothing,
    /// where the template declares no such section.
    pub fn add_section(&mut self, name: &str, text: String) -> (r: Result<(), AsmError>)
        ensures
            final(self)@ == old(self)@.emit(name@, text@).template,
            r == result_of(old(self)@.emit(name@, text@).error),
    {
        match self.find_section(name) {
            None => Err(AsmError::UndeclaredSection),
            Some(i) => {
                let mut section = self.sections.remove(i);
                let ghost before = section@;
                section.fragments.push(text);
                assert(section@.fragments =~= before.fragments.push(text@));
                self.sections.insert(i, section);
                assert(self@.sections =~= old(self)@.sections.update(
                    i as int,
                    SectionView {
                        name: old(self)@.sections[i as int].name,
                        fragments: old(self)@.sections[i as int].fragments.push(text@),
                    },
                ));
                Ok(())
            },
        }
    }

    /// Appends `text` to the section that receives the code. Fails, and
    /// changes nothing, where the template declares no such section.
    pub fn add_code(&mut self, text: String) -> (r: Result<(), AsmError>)
        ensures
            final(self)@ == old(self)@.emit_code(text@).template,
            r == result_of(old(self)@.emit_code(text@).error),
    {
        let name = self.current_code_section.clone();
        self.add_section(name.as_str(), text)
    }

    /// Makes `name` the section that receives the code.
    pub fn set_code_section(&mut self, name: String)
        ensures
            final(self)@ == old(self)@.with_active(name@),
    {
        self.current_code_section = name;
    }

    /// Whether `needle` stands in the text of the section `name`.
    pub fn section_contains(&self, name: &str, needle: &str) -> (found: bool)
        ensures
            found == contains(self@.section_text(name@), needle@),
    {
        let text = self.render_section(name);
        text_contains(text.as_str(), needle)
    }

    /// The text of the section `name`.
    fn render_section(&self, name: &str) -> (text: String)
        ensures
            text@ == self@.section_text(name@),
    {
        match self.find_section(name) {
            Some(i) => join_lines(&self.sections[i].fragments),
            None => String::new(),
        }
    }

    /// Builds the output: the skeleton, each marker replaced by its section.
    pub fn build(&self) -> (out: String)
        ensures
            out@ == self@.build(),
    {
        let mut rendered: Vec<String> = Vec::new();
        let mut i: usize = 0;
        assert(texts(rendered@) =~= self@.piece_texts(0));
        while i < self.pieces.len()
            invariant
                i <= self.pieces.len(),
                texts(rendered@) == self@.piece_texts(i as nat),
            decreases self.pieces.len() - i,
        {
            let ghost before = texts(rendered@);
            let text = match &self.pieces[i] {
                TemplatePiece::Text(line) => line.clone(),
                TemplatePiece::Marker(name) => self.render_section(name.as_str()),
            };
            assert(text@ == self@.piece_text(self@.pieces[i as int]));
            rendered.push(text);
            assert(texts(rendered@) =~= before.push(text@));
            i = i + 1;
        }
        join_lines(&rendered)
    }
}

/// The sections that a prefix of the pieces declares do not depend on the
/// pieces behind it.
pub proof fn lemma_declared_prefix(longer: Seq<PieceView>, shorter: Seq<PieceView>, n: nat)
    requires
        n <= shorter.len() <= longer.len(),
        forall|j: int| 0 <= j < shorter.len() ==> longer[j] == shorter[j],
    ensures
        declared(longer, n) == declared(shorter, n),
    decreases n,
{
    if n > 0 {
        lemma_declared_prefix(longer, shorter, (n - 1) as nat);
    }
}


/// A skeleton without markers is built as it stands: the template adds
/// nothing of its own to the text.
pub proof fn lemma_plain_skeleton_is_kept(skeleton: Seq<char>)
    requires
        forall|i: int|
            0 <= i < lines(skeleton).len() ==> !starts_with(
                #[trigger] lines(skeleton)[i],
                marker(),
            ),
    ensures
        TemplateView::parse(skeleton).build() == skeleton,
{
    let all = lines(skeleton);
    let t = TemplateView::parse(skeleton);
    lemma_plain_pieces_only(all, all.len());
    lemma_plain_texts(t, all, all.len());
    lemma_lines_join(skeleton, 0);
    assert(skeleton.subrange(0, skeleton.len() as int) =~= skeleton);
    assert(t.piece_texts(t.pieces.len()) =~= all);
}

/// The pieces of lines without markers are texts.
proof fn lemma_plain_pieces_only(all: Seq<Seq<char>>, n: nat)
    requires
        n <= all.len(),
        forall|i: int| 0 <= i < all.len() ==> !starts_with(#[trigger] all[i], marker()),
    ensures
        pieces_of(all, n).len() == n,
        forall|i: int| 0 <= i < n ==> (#[trigger] pieces_of(all, n)[i]) == PieceView::Text(all[i]),
    decreases n,
{
    if n > 0 {
        lemma_plain_pieces_only(all, (n - 1) as nat);
    }
}

/// The texts of pieces that are texts are the lines.
proof fn lemma_plain_texts(t: TemplateView, all: Seq<Seq<char>>, n: nat)
    requires
        n <= all.len(),
        t.pieces.len() == all.len(),
        forall|i: int| 0 <= i < all.len() ==> (#[trigger] t.pieces[i]) == PieceView::Text(all[i]),
    ensures
        t.piece_texts(n).len() == n,
        forall|i: int| 0 <= i < n ==> (#[trigger] t.piece_texts(n)[i]) == all[i],
    decreases n,
{
    if n > 0 {
        lemma_plain_texts(t, all, (n - 1) as nat);
    }
}

} // verus!
