use crate::date::Date;
use vstd::prelude::*;

verus! {

#[verifier::external_type_specification]
#[verifier::external_body]
pub struct ExYamlValue(serde_yml::Value);

/// One entry of a table of contents: plain text, or a heading that links to
/// an anchor and may hold nested entries.
#[derive(Debug)]
pub enum Toc {
    Text(String),
    Heading { label: String, anchor: String, subheadings: Vec<Toc> },
}

/// The markup of one table-of-contents entry, as a list item.
pub open spec fn toc_html(t: Toc) -> Seq<char>
    decreases t, 1nat, 0nat,
{
    match t {
        Toc::Text(text) => "<li>"@ + text@ + "</li>"@,
        Toc::Heading { label, anchor, subheadings } => if subheadings.len() == 0 {
            "<li><a href=\"#"@ + anchor@ + "\">"@ + label@ + "</a></li>"@
        } else {
            "<li><a href=\"#"@ + anchor@ + "\">"@ + label@ + "</a><ul>"@ + toc_children_html(
                t,
                0,
            ) + "</ul></li>"@
        },
    }
}

/// The markup of the nested entries of `t` from the `i`-th on, one after another.
pub open spec fn toc_children_html(t: Toc, i: int) -> Seq<char>
    decreases t, 0nat, (if t is Heading {
        t->subheadings.len() - i
    } else {
        0
    }) as nat,
{
    if t is Heading && 0 <= i < t->subheadings.len() {
        toc_html(t->subheadings[i]) + toc_children_html(t, i + 1)
    } else {
        Seq::empty()
    }
}

impl Toc {
    /// The entry as an HTML list item; nested entries form an inner list.
    pub fn to_html(&self) -> (r: String)
        ensures
            r@ == toc_html(*self),
        decreases self,
    {
        match self {
            Toc::Text(text) => {
                let mut out = String::new();
                out.append("<li>");
                out.append(text.as_str());
                out.append("</li>");
                out
            },
            Toc::Heading { label, anchor, subheadings } => {
                let mut out = String::new();
                out.append("<li><a href=\"#");
                out.append(anchor.as_str());
                out.append("\">");
                out.append(label.as_str());
                if subheadings.len() == 0 {
                    out.append("</a></li>");
                    return out;
                }
                out.append("</a><ul>");
                let ghost head = out@;
                let mut i: usize = 0;
                while i < subheadings.len()
                    invariant
                        *self is Heading,
                        subheadings == self->subheadings,
                        i <= subheadings.len(),
                        out@ + toc_children_html(*self, i as int) == head + toc_children_html(
                            *self,
                            0,
                        ),
                    decreases subheadings.len() - i,
                {
                    assert(decreases_to!(*self => subheadings[i as int]));
                    let inner = subheadings[i].to_html();
                    let ghost prev = out@;
                    out.append(inner.as_str());
                    assert(toc_children_html(*self, i as int) == inner@ + toc_children_html(
                        *self,
                        i + 1,
                    ));
                    assert(out@ + toc_children_html(*self, i + 1) =~= prev + (inner@
                        + toc_children_html(*self, i + 1)));
                    i = i + 1;
                }
                out.append("</ul></li>");
                out
            },
        }
    }
}

/// The front matter of a document, with the defaults of absent fields filled in.
#[derive(Debug)]
pub struct ArticleMeta {
    pub title: String,
    pub blurb: String,
    pub tags: Vec<String>,
    pub template: String,
    pub toc: Vec<Toc>,
    pub exclude_from_rss: bool,
    pub hidden: bool,
    pub updated: Date,
    pub created: Date,
    pub ready: bool,
    pub always_rerender: bool,
    /// Further fields of the front matter, kept as they came.
    pub extra: serde_yml::Value,
}

/// Relies on `serde_yml::Value::Null`: the empty set of further fields.
#[verifier::external_body]
fn no_extra_fields() -> serde_yml::Value {
    serde_yml::Value::Null
}

/// The markup of a list of table-of-contents entries, one after another.
pub open spec fn toc_list_html(s: Seq<Toc>) -> Seq<char>
    decreases s.len(),
{
    if s.len() == 0 {
        Seq::empty()
    } else {
        toc_list_html(s.drop_last()) + toc_html(s.last())
    }
}

impl ArticleMeta {
    /// The table of contents as HTML list items, one after another.
    pub fn toc_html(&self) -> (r: String)
        ensures
            r@ == toc_list_html(self.toc@),
    {
        let mut out = String::new();
        let mut i: usize = 0;
        while i < self.toc.len()
            invariant
                i <= self.toc@.len(),
                out@ == toc_list_html(self.toc@.subrange(0, i as int)),
            decreases self.toc@.len() - i,
        {
            let item = self.toc[i].to_html();
            out.append(item.as_str());
            assert(self.toc@.subrange(0, i + 1).drop_last() =~= self.toc@.subrange(0, i as int));
            i = i + 1;
        }
        assert(self.toc@.subrange(0, i as int) =~= self.toc@);
        out
    }

    /// The title of a document whose front matter gives none.
    pub open spec fn spec_default_title() -> Seq<char> {
        "Untitled Page"@
    }

    /// The template of a document whose front matter names none.
    pub open spec fn spec_default_template() -> Seq<char> {
        "article"@
    }

    /// The metadata of a document whose front matter is empty.
    pub open spec fn is_default(&self) -> bool {
        &&& self.title@ == Self::spec_default_title()
        &&& self.blurb@.len() == 0
        &&& self.tags@.len() == 0
        &&& self.template@ == Self::spec_default_template()
        &&& self.toc@.len() == 0
        &&& !self.exclude_from_rss
        &&& !self.hidden
        &&& self.updated == Date::spec_unset()
        &&& self.created == Date::spec_unset()
        &&& !self.ready
        &&& !self.always_rerender
    }
}

impl Default for ArticleMeta {
    fn default() -> (r: ArticleMeta)
        ensures
            r.is_default(),
    {
        ArticleMeta {
            title: "Untitled Page".to_string(),
            blurb: String::new(),
            tags: Vec::new(),
            template: "article".to_string(),
            toc: Vec::new(),
            exclude_from_rss: false,
            hidden: false,
            updated: Date::unset(),
            created: Date::unset(),
            ready: false,
            always_rerender: false,
            extra: no_extra_fields(),
        }
    }
}

} // verus!
