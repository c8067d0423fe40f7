use vstd::prelude::*;

use crate::emit::{emit, emit_spec, internal_at, Context};
use crate::error::{custom_error, Error, ErrorKind};
use crate::header::{header_spec, parse_header, HeaderV};
use crate::text::append_vec;
use crate::tree::{lemma_node_view, Node, NodeV, Rule};

verus! {

/// One argument block of the output: a label, the emitted premise
/// fragments in order, and the emitted conclusion fragment.
#[derive(Debug)]
pub struct Section {
    pub label: Vec<char>,
    pub args: Vec<Vec<char>>,
    pub conclusion: Vec<char>,
}

/// Mathematical model of a section.
pub ghost struct SectionV {
    pub label: Seq<char>,
    pub args: Seq<Seq<char>>,
    pub conclusion: Seq<char>,
}

impl View for Section {
    type V = SectionV;

    open spec fn view(&self) -> SectionV {
        SectionV {
            label: self.label@,
            args: Seq::new(self.args@.len(), |i: int| self.args@[i]@),
            conclusion: self.conclusion@,
        }
    }
}

impl Section {
    /// A fresh, empty in-progress section.
    pub fn new() -> (s: Section)
        ensures
            s@ == empty_section(),
    {
        let s = Section { label: Vec::new(), args: Vec::new(), conclusion: Vec::new() };
        proof {
            assert(s@.label =~= empty_section().label);
            assert(s@.args =~= empty_section().args);
            assert(s@.conclusion =~= empty_section().conclusion);
        }
        s
    }
}

/// The in-progress section every document and every conclusion
/// starts from.
pub open spec fn empty_section() -> SectionV {
    SectionV { label: Seq::empty(), args: Seq::empty(), conclusion: Seq::empty() }
}

/// The translated document: its metadata and its sections, ready
/// for a templating step.
#[derive(Debug)]
pub struct Document {
    pub title: Vec<char>,
    pub author: Vec<char>,
    pub date: Vec<char>,
    pub sections: Vec<Section>,
}

/// Mathematical model of a translated document.
pub ghost struct DocumentV {
    pub title: Seq<char>,
    pub author: Seq<char>,
    pub date: Seq<char>,
    pub sections: Seq<SectionV>,
}

impl View for Document {
    type V = DocumentV;

    open spec fn view(&self) -> DocumentV {
        DocumentV {
            title: self.title@,
            author: self.author@,
            date: self.date@,
            sections: Seq::new(self.sections@.len(), |i: int| self.sections@[i]@),
        }
    }
}

/// Walk the body nodes `s[i..]`, grouping premises and a conclusion
/// into sections: a label renames the in-progress section, an `arg`
/// appends a premise, a conclusion closes the section and resets the
/// numbering. A trailing section is kept only if it has premises.
pub open spec fn sections_spec(
    s: Seq<NodeV>,
    i: int,
    c: u16,
    cur: SectionV,
    acc: Seq<SectionV>,
) -> Result<Seq<SectionV>, Error>
    decreases s.len() - i,
{
    if i < 0 || i >= s.len() {
        Ok(
            if cur.args.len() > 0 {
                acc.push(cur)
            } else {
                acc
            },
        )
    } else {
        let n = s[i];
        match n.kind {
            Rule::Label => sections_spec(
                s,
                i + 1,
                c,
                SectionV { label: n.text, args: cur.args, conclusion: cur.conclusion },
                acc,
            ),
            Rule::Arg => match emit_spec(n, c) {
                (Err(e), _) => Err(e),
                (Ok(t), c2) => sections_spec(
                    s,
                    i + 1,
                    c2,
                    SectionV { label: cur.label, args: cur.args.push(t), conclusion: cur.conclusion },
                    acc,
                ),
            },
            Rule::Conclusion => match emit_spec(n, c) {
                (Err(e), _) => Err(e),
                (Ok(t), _) => sections_spec(
                    s,
                    i + 1,
                    0,
                    empty_section(),
                    acc.push(SectionV { label: cur.label, args: cur.args, conclusion: t }),
                ),
            },
            _ => Err(internal_at(n)),
        }
    }
}

/// What assembling a whole parse tree yields: the header's metadata
/// and the ordered section list, or the first error.
pub open spec fn root_spec(n: NodeV) -> Result<DocumentV, Error> {
    if n.kind != Rule::Root {
        Err(internal_at(n))
    } else if n.children.len() < 1 {
        Err(
            Error {
                kind: ErrorKind::Arity { rule: n.kind, expected: 1, got: 0 },
                start: n.start as usize,
                end: n.end as usize,
            },
        )
    } else {
        match header_spec(n.children[0]) {
            Err(e) => Err(e),
            Ok(h) => match sections_spec(n.children, 1, 0, empty_section(), Seq::empty()) {
                Err(e) => Err(e),
                Ok(secs) => Ok(
                    DocumentV { title: h.title, author: h.author, date: h.date, sections: secs },
                ),
            },
        }
    }
}

/// Assemble the document from its parse tree: extract the header,
/// then route every body node through the emitter, grouping the
/// fragments into sections; agrees with [`root_spec`] throughout.
#[verifier::loop_isolation(false)]
pub fn parse_root(root: &Node) -> (r: Result<Document, Error>)
    ensures
        match r {
            Ok(d) => root_spec(root@) == Ok::<DocumentV, Error>(d@),
            Err(e) => root_spec(root@) == Err::<DocumentV, Error>(e),
        },
{
    proof {
        lemma_node_view(*root);
    }
    if !matches!(root.kind, Rule::Root) {
        return Err(custom_error(ErrorKind::Internal, root.start, root.end));
    }
    match crate::tree::extract_at_least(root, 1) {
        Err(e) => {
            return Err(e);
        },
        Ok(()) => {},
    }
    let header = match parse_header(&root.children[0]) {
        Err(e) => {
            return Err(e);
        },
        Ok(h) => h,
    };
    let ghost s = root@.children;
    let mut ctx = Context { current_number: 0 };
    let mut cur = Section::new();
    let mut acc: Vec<Section> = Vec::new();
    assert(Seq::new(acc@.len(), |j: int| acc@[j]@) =~= Seq::<SectionV>::empty());
    let mut i: usize = 1;
    while i < root.children.len()
        invariant
            1 <= i <= root.children@.len(),
            sections_spec(s, 1, 0, empty_section(), Seq::empty()) == sections_spec(
                s,
                i as int,
                ctx.current_number,
                cur@,
                Seq::new(acc@.len(), |j: int| acc@[j]@),
            ),
        decreases root.children@.len() - i,
    {
        let node = &root.children[i];
        proof {
            lemma_node_view(*node);
        }
        let ghost ci = ctx.current_number;
        let ghost curv = cur@;
        let ghost accv = Seq::new(acc@.len(), |j: int| acc@[j]@);
        match node.kind {
            Rule::Label => {
                let mut l: Vec<char> = Vec::new();
                append_vec(&mut l, &node.text);
                cur.label = l;
                assert(cur@.args =~= curv.args);
            },
            Rule::Arg => {
                match emit(node, &mut ctx) {
                    Err(e) => {
                        return Err(e);
                    },
                    Ok(t) => {
                        cur.args.push(t);
                        assert(cur@.args =~~= curv.args.push(cur.args@[cur.args@.len() - 1]@));
                        assert(cur@ == (SectionV {
                            label: curv.label,
                            args: curv.args.push(cur.args@[cur.args@.len() - 1]@),
                            conclusion: curv.conclusion,
                        }));
                    },
                }
            },
            Rule::Conclusion => {
                match emit(node, &mut ctx) {
                    Err(e) => {
                        return Err(e);
                    },
                    Ok(t) => {
                        cur.conclusion = t;
                        let ghost closedv = cur@;
                        acc.push(cur);
                        cur = Section::new();
                        ctx.reset();
                        assert(Seq::new(acc@.len(), |j: int| acc@[j]@) =~~= accv.push(closedv));
                        assert(closedv == (SectionV {
                            label: curv.label,
                            args: curv.args,
                            conclusion: acc@[acc@.len() - 1]@.conclusion,
                        }));
                    },
                }
            },
            _ => {
                return Err(custom_error(ErrorKind::Internal, node.start, node.end));
            },
        }
        i = i + 1;
    }
    let ghost curv_end = cur@;
    let ghost accv_end = Seq::new(acc@.len(), |j: int| acc@[j]@);
    if cur.args.len() > 0 {
        acc.push(cur);
        assert(Seq::new(acc@.len(), |j: int| acc@[j]@) =~~= accv_end.push(curv_end));
    }
    let d = Document {
        title: header.title,
        author: header.author,
        date: header.date,
        sections: acc,
    };
    proof {
        assert(d@.sections =~~= Seq::new(d.sections@.len(), |j: int| d.sections@[j]@));
    }
    Ok(d)
}

} // verus!
