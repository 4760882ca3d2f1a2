//! Word sources: the stream of typing challenges per level, either from a
//! built-in cyclic dictionary or from a parsed lesson document.

use vstd::prelude::*;
use vstd::string::StringExecFns;
use crate::text::split_ws;
use crate::text::split_whitespace_of;
use crate::xml::{XmlNode, XmlNodeV, nodes_view, xml_nodes, parse_xml};
use crate::xml::{first_elem_child, named_child, find_first_elem_child, find_named_child};

verus! {

/// What a word source yields at one (level, sequence) position.
pub enum Enemies {
    /// The next word to type.
    Word(String),
    /// The level holds no further words.
    LevelComplete,
    /// No level remains.
    GameComplete,
}

/// Mathematical content of one word-source answer.
pub enum WordV {
    Word(Seq<char>),
    LevelComplete,
    GameComplete,
}

pub open spec fn word_matches(r: Enemies, v: WordV) -> bool {
    match r {
        Enemies::Word(s) => v == WordV::Word(s@),
        Enemies::LevelComplete => v == WordV::LevelComplete,
        Enemies::GameComplete => v == WordV::GameComplete,
    }
}

/// A source of words, one level at a time: answers with a word for each
/// sequence position of a level, with `LevelComplete` past the level's last
/// word, and with `GameComplete` past the last level.
pub trait WordProducer: Sized {
    /// The stream as a mathematical function of level and sequence.
    spec fn spec_next_word(&self, l: int, n: int) -> WordV;

    /// Produces the n-th word of the l-th level.
    fn next_word(&mut self, l: usize, n: usize) -> (r: Enemies)
        ensures
            *final(self) == *old(self),
            word_matches(r, old(self).spec_next_word(l as int, n as int)),
    ;
}

/// The built-in dictionary, cycled by the sequence index.
pub open spec fn dict_word(k: int) -> Seq<char> {
    if k == 0 {
        "jj"@
    } else if k == 1 {
        "ff"@
    } else if k == 2 {
        "jj"@
    } else if k == 3 {
        "ff"@
    } else if k == 4 {
        "jjj"@
    } else if k == 5 {
        "fff"@
    } else if k == 6 {
        "jfj"@
    } else if k == 7 {
        "fjj"@
    } else if k == 8 {
        "ffj"@
    } else if k == 9 {
        "jff"@
    } else if k == 10 {
        "ciao"@
    } else if k == 11 {
        "belli"@
    } else if k == 12 {
        "come"@
    } else {
        "state"@
    }
}

/// A word source over a fixed built-in word list: ten words per level,
/// drawn cyclically from the dictionary, three levels in all.
pub struct CodeDict;

impl WordProducer for CodeDict {
    open spec fn spec_next_word(&self, l: int, n: int) -> WordV {
        if l > 2 {
            WordV::GameComplete
        } else if n < 10 {
            WordV::Word(dict_word(n % 14))
        } else {
            WordV::LevelComplete
        }
    }

    fn next_word(&mut self, l: usize, n: usize) -> (r: Enemies) {
        if l > 2 {
            Enemies::GameComplete
        } else if n < 10 {
            let w = match n % 14 {
                0 => "jj",
                1 => "ff",
                2 => "jj",
                3 => "ff",
                4 => "jjj",
                5 => "fff",
                6 => "jfj",
                7 => "fjj",
                8 => "ffj",
                9 => "jff",
                10 => "ciao",
                11 => "belli",
                12 => "come",
                _ => "state",
            };
            Enemies::Word(w.to_owned())
        } else {
            Enemies::LevelComplete
        }
    }
}

/// The dictionary source's boundaries: a level at or below two runs out of
/// words after ten, and every level above two reports the game complete.
pub proof fn lemma_code_dict_bounds(d: CodeDict, l: int, n: int)
    ensures
        l > 2 ==> d.spec_next_word(l, n) == WordV::GameComplete,
        l <= 2 && n >= 10 ==> d.spec_next_word(l, n) == WordV::LevelComplete,
        l <= 2 && 0 <= n < 10 ==> d.spec_next_word(l, n) == WordV::Word(dict_word(n)),
{
}

/// The indices of the element children of node `p`, at `from` or later, in
/// document order.
pub open spec fn elem_kids(nodes: Seq<XmlNodeV>, p: int, from: int) -> Seq<int>
    decreases nodes.len() - from,
{
    if from >= nodes.len() {
        Seq::empty()
    } else if from >= 1 && nodes[from].parent == p && nodes[from].element {
        seq![from] + elem_kids(nodes, p, from + 1)
    } else {
        elem_kids(nodes, p, from + 1)
    }
}

/// The words of the lesson held by element `j`: the text content of its
/// `text` element child, split on whitespace; `None` when the child or its
/// text is missing.
pub open spec fn lesson_words(nodes: Seq<XmlNodeV>, j: int) -> Option<Seq<Seq<char>>> {
    match named_child(nodes, j, "text"@, 1) {
        Option::None => Option::None,
        Option::Some(t) => match nodes[t].text {
            Option::None => Option::None,
            Option::Some(txt) => Option::Some(split_ws(txt)),
        },
    }
}

/// The word lists of the lessons at the given indices; `None` as soon as
/// one of them has no text.
pub open spec fn lessons_of(nodes: Seq<XmlNodeV>, picked: Seq<int>) -> Option<
    Seq<Seq<Seq<char>>>,
>
    decreases picked.len(),
{
    if picked.len() == 0 {
        Option::Some(Seq::empty())
    } else {
        match lesson_words(nodes, picked[0]) {
            Option::None => Option::None,
            Option::Some(w) => match lessons_of(nodes, picked.drop_first()) {
                Option::None => Option::None,
                Option::Some(r) => Option::Some(seq![w] + r),
            },
        }
    }
}

/// The first three lesson elements of the document: element children of the
/// `lessons` element under the course element, the course element being the
/// root's first element child.
pub open spec fn picked_lessons(nodes: Seq<XmlNodeV>) -> Option<Seq<int>> {
    match first_elem_child(nodes, 0, 1) {
        Option::None => Option::None,
        Option::Some(course) => match named_child(nodes, course, "lessons"@, 1) {
            Option::None => Option::None,
            Option::Some(lt) => {
                let kids = elem_kids(nodes, lt, 1);
                Option::Some(if kids.len() <= 3 { kids } else { kids.take(3) })
            },
        },
    }
}

/// The lesson word lists of the document, when it has the expected
/// structure: a course element under the root, a `lessons` element under
/// it, and a `text` child with text content in each of the first three
/// lessons.
pub open spec fn spec_lessons(nodes: Seq<XmlNodeV>) -> Option<Seq<Seq<Seq<char>>>> {
    match picked_lessons(nodes) {
        Option::None => Option::None,
        Option::Some(picked) => lessons_of(nodes, picked),
    }
}

/// A word source read from a lesson document: up to the first three
/// lessons, each lesson's text split into whitespace-delimited words.
pub struct KTouchParser {
    /// The parsed lessons: one word list per lesson.
    pub lessons: Vec<Vec<String>>,
}

impl KTouchParser {
    /// The lessons as sequences of words of characters.
    pub open spec fn lessons_view(&self) -> Seq<Seq<Seq<char>>> {
        self.lessons@.map_values(|l: Vec<String>| l@.map_values(|w: String| w@))
    }

    /// Reads a lesson document: parses `contents` as XML and extracts the
    /// first three lessons' words; `None` when the text is not well-formed
    /// XML or the expected structure is missing.
    pub fn new(contents: &str) -> (r: Option<KTouchParser>)
        ensures
            match xml_nodes(contents@) {
                Option::None => r is None,
                Option::Some(nv) => match spec_lessons(nv) {
                    Option::None => r is None,
                    Option::Some(ls) => match r {
                        Option::Some(p) => p.lessons_view() == ls,
                        Option::None => false,
                    },
                },
            },
    {
        let nodes = match parse_xml(contents) {
            Option::Some(v) => v,
            Option::None => {
                return Option::None;
            },
        };
        let ghost nv = nodes_view(nodes@);
        let course = match find_first_elem_child(&nodes, 0) {
            Option::Some(c) => c,
            Option::None => {
                return Option::None;
            },
        };
        let lt = match find_named_child(&nodes, course, "lessons") {
            Option::Some(t) => t,
            Option::None => {
                return Option::None;
            },
        };
        let mut kids: Vec<usize> = Vec::new();
        let mut j: usize = 1;
        proof {
            assert("lessons"@ == "lessons"@);
        }
        while j < nodes.len() && kids.len() < 3
            invariant
                nv == nodes_view(nodes@),
                1 <= j,
                j <= nodes@.len() || j == 1,
                kids@.len() <= 3,
                forall|q: int| 0 <= q < kids@.len() ==> 1 <= #[trigger] kids@[q] < nodes@.len(),
                elem_kids(nv, lt as int, 1) == kids@.map_values(|u: usize| u as int) + elem_kids(
                    nv,
                    lt as int,
                    j as int,
                ),
            decreases nodes@.len() - j,
        {
            let nd = &nodes[j];
            proof {
                assert(nv[j as int] == nodes@[j as int]@);
            }
            let ghost old_kids = kids@;
            if nd.parent == lt && nd.element {
                kids.push(j);
                proof {
                    assert(kids@.map_values(|u: usize| u as int) =~= old_kids.map_values(
                        |u: usize| u as int,
                    ) + seq![j as int]);
                    assert(elem_kids(nv, lt as int, j as int) == seq![j as int] + elem_kids(
                        nv,
                        lt as int,
                        j as int + 1,
                    ));
                    assert(old_kids.map_values(|u: usize| u as int) + (seq![j as int] + elem_kids(
                        nv,
                        lt as int,
                        j as int + 1,
                    )) =~= kids@.map_values(|u: usize| u as int) + elem_kids(
                        nv,
                        lt as int,
                        j as int + 1,
                    ));
                }
            }
            j += 1;
        }
        let ghost picked = picked_lessons(nv)->Some_0;
        proof {
            let all = elem_kids(nv, lt as int, 1);
            if kids@.len() < 3 {
                assert(elem_kids(nv, lt as int, j as int) =~= Seq::<int>::empty());
                assert(all =~= kids@.map_values(|u: usize| u as int));
            } else {
                assert(all.take(3) =~= kids@.map_values(|u: usize| u as int));
                assert(all.len() >= 3);
            }
            assert(picked_lessons(nv) is Some);
            assert(picked =~= kids@.map_values(|u: usize| u as int));
            assert(picked == kids@.map_values(|u: usize| u as int));
        }
        let mut lessons: Vec<Vec<String>> = Vec::new();
        let mut i: usize = 0;
        proof {
            assert(picked.skip(0) =~= picked);
            assert(lessons@.map_values(|l: Vec<String>| l@.map_values(|w: String| w@)) =~= Seq::<
                Seq<Seq<char>>,
            >::empty());
            if lessons_of(nv, picked) is Some {
                assert(Seq::<Seq<Seq<char>>>::empty() + lessons_of(nv, picked)->Some_0
                    =~= lessons_of(nv, picked)->Some_0);
            }
        }
        while i < kids.len()
            invariant
                nv == nodes_view(nodes@),
                xml_nodes(contents@) == Option::Some(nv),
                picked_lessons(nv) == Option::Some(picked),
                0 <= i <= kids@.len(),
                picked == kids@.map_values(|u: usize| u as int),
                forall|q: int| 0 <= q < kids@.len() ==> 1 <= #[trigger] kids@[q] < nodes@.len(),
                lessons@.len() == i,
                match lessons_of(nv, picked.skip(i as int)) {
                    Option::None => lessons_of(nv, picked) is None,
                    Option::Some(r) => lessons_of(nv, picked) == Option::Some(
                        lessons@.map_values(|l: Vec<String>| l@.map_values(|w: String| w@)) + r,
                    ),
                },
            decreases kids@.len() - i,
        {
            let kid = kids[i];
            proof {
                assert(picked.skip(i as int)[0] == picked[i as int]);
                assert(picked.skip(i as int).drop_first() =~= picked.skip(i as int + 1));
            }
            proof {
                assert(picked[i as int] == kid as int);
            }
            let t = match find_named_child(&nodes, kid, "text") {
                Option::Some(t) => t,
                Option::None => {
                    proof {
                        assert(lesson_words(nv, picked[i as int]) is None);
                        assert(lessons_of(nv, picked.skip(i as int)) is None);
                        assert(spec_lessons(nv) is None);
                    }
                    return Option::None;
                },
            };
            proof {
                assert(nv[t as int] == nodes@[t as int]@);
            }
            let txt = match &nodes[t].text {
                Option::Some(txt) => txt,
                Option::None => {
                    proof {
                        assert(lesson_words(nv, picked[i as int]) is None);
                        assert(lessons_of(nv, picked.skip(i as int)) is None);
                        assert(spec_lessons(nv) is None);
                    }
                    return Option::None;
                },
            };
            let words = split_whitespace_of(txt.as_str());
            let ghost old_lessons = lessons@.map_values(
                |l: Vec<String>| l@.map_values(|w: String| w@),
            );
            lessons.push(words);
            proof {
                let lw = lesson_words(nv, picked[i as int])->Some_0;
                assert(lessons@.map_values(|l: Vec<String>| l@.map_values(|w: String| w@))
                    =~= old_lessons + seq![lw]);
                if lessons_of(nv, picked.skip(i as int + 1)) is Some {
                    let r2 = lessons_of(nv, picked.skip(i as int + 1))->Some_0;
                    assert(old_lessons + (seq![lw] + r2) =~= (old_lessons + seq![lw]) + r2);
                }
            }
            i += 1;
        }
        proof {
            assert(picked.skip(i as int) =~= Seq::<int>::empty());
            assert(lessons@.map_values(|l: Vec<String>| l@.map_values(|w: String| w@))
                + Seq::<Seq<Seq<char>>>::empty() =~= lessons@.map_values(
                |l: Vec<String>| l@.map_values(|w: String| w@),
            ));
        }
        Option::Some(KTouchParser { lessons })
    }
}

impl WordProducer for KTouchParser {
    open spec fn spec_next_word(&self, l: int, n: int) -> WordV {
        let ls = self.lessons_view();
        if 0 <= l < ls.len() {
            if 0 <= n < ls[l].len() {
                WordV::Word(ls[l][n])
            } else {
                WordV::LevelComplete
            }
        } else {
            WordV::GameComplete
        }
    }

    fn next_word(&mut self, l: usize, n: usize) -> (r: Enemies) {
        if l < self.lessons.len() {
            let row = &self.lessons[l];
            if n < row.len() {
                Enemies::Word(row[n].clone())
            } else {
                Enemies::LevelComplete
            }
        } else {
            Enemies::GameComplete
        }
    }
}

} // verus!
