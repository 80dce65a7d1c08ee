//! Rendering a column article into Markdown: the title from the post
//! heading, the content from the copyrighted rich-text block, with the
//! line-break and figure rules enabled.

use vstd::prelude::*;

use crate::errors::ZhihuError;
use crate::errors::ZhihuResult;
use crate::extract::md_kids;
use crate::extract::md_node;
use crate::query::first_match_from;
use crate::selector::Selector;
use crate::selector::parse_selector;
use crate::tree::Html;
use crate::utils::sel_first_text;
use crate::utils::select_text;

verus! {

/// The title one parse pass leaves behind: the text of the post heading,
/// or empty when there is none.
pub open spec fn article_title(t: Html) -> Seq<char> {
    match sel_first_text(t, "h1.Post-Title"@) {
        Some(v) => v,
        None => Seq::empty(),
    }
}

/// What one parse pass appends to the content: the Markdown of the children
/// of the first copyrighted rich-text block, up to the first element the
/// walk has no rule for.
pub open spec fn article_delta(t: Html) -> Seq<char> {
    match parse_selector("span.CopyrightRichText-richText"@) {
        Some(sp) => match first_match_from(t, sp, None, 0, t.nodes@.len() as int) {
            Some(n) => md_kids(t, n, 0, true).0,
            None => Seq::empty(),
        },
        None => Seq::empty(),
    }
}

/// A column article rendered to Markdown.
#[derive(Debug)]
pub struct ZhihuArticle {
    pub title: String,
    pub content: String,
}

impl Default for ZhihuArticle {
    fn default() -> (r: Self)
        ensures
            r.title@ == Seq::<char>::empty(),
            r.content@ == Seq::<char>::empty(),
    {
        Self { title: String::new(), content: String::new() }
    }
}

impl ZhihuArticle {
    /// The extracted title.
    pub fn title(&self) -> (r: &String)
        ensures
            r == &self.title,
    {
        &self.title
    }

    /// The extracted content.
    pub fn content(&self) -> (r: &String)
        ensures
            r == &self.content,
    {
        &self.content
    }

    /// The whole article as Markdown: a heading, a blank line, the content.
    pub fn to_markdown(&self) -> (r: String)
        ensures
            r@ == "# "@ + self.title@ + "\n\n"@ + self.content@,
    {
        let mut out = String::from_str("# ");
        out.append(self.title.as_str());
        out.append("\n\n");
        out.append(self.content.as_str());
        proof {
            assert(out@ =~= "# "@ + self.title@ + "\n\n"@ + self.content@);
        }
        out
    }

    /// Runs every extraction pass over a parsed article page.  Extraction
    /// never fails: a missing block leaves the field empty or unchanged.
    pub fn do_parse(&mut self, html: &Html) -> (r: ZhihuResult<()>)
        requires
            html.wf(),
        ensures
            r is Ok,
            final(self).title@ == article_title(*html),
            final(self).content@ == old(self).content@ + article_delta(*html),
    {
        match self.extract_title(html) {
            Ok(()) => {},
            Err(e) => {
                return Err(e);
            },
        }
        match self.extract_description(html) {
            Ok(()) => {},
            Err(e) => {
                return Err(e);
            },
        }
        match self.extract_content(html) {
            Ok(()) => {},
            Err(e) => {
                return Err(e);
            },
        }
        Ok(())
    }

    /// Sets the title from the post heading, or to empty when none is
    /// found.
    fn extract_title(&mut self, html: &Html) -> (r: ZhihuResult<()>)
        requires
            html.wf(),
        ensures
            r is Ok,
            final(self).title@ == article_title(*html),
            final(self).content == old(self).content,
    {
        let sel = match Selector::try_parse("h1.Post-Title") {
            Ok(sel) => sel,
            Err(_) => {
                self.title = String::new();
                return Ok(());
            },
        };
        match select_text(html, &sel) {
            Some(v) => {
                self.title = v;
            },
            None => {
                self.title = String::new();
            },
        }
        Ok(())
    }

    /// The question description adds nothing to the rendered article; the
    /// pass leaves it untouched.
    fn extract_description(&mut self, html: &Html) -> (r: ZhihuResult<()>)
        requires
            html.wf(),
        ensures
            r is Ok,
            *final(self) == *old(self),
    {
        let _ = Selector::try_parse("div.QuestionRichText");
        Ok(())
    }

    /// Appends the Markdown of the first copyrighted rich-text block.  A
    /// child the walk has no rule for ends the walk; what was gathered
    /// before it stays.
    fn extract_content(&mut self, html: &Html) -> (r: ZhihuResult<()>)
        requires
            html.wf(),
        ensures
            r is Ok,
            final(self).title == old(self).title,
            final(self).content@ == old(self).content@ + article_delta(*html),
    {
        let sel = match Selector::try_parse("span.CopyrightRichText-richText") {
            Ok(sel) => sel,
            Err(_) => {
                return Ok(());
            },
        };
        let mut iter = html.select(&sel);
        let n = match iter.next() {
            Some(n) => n,
            None => {
                return Ok(());
            },
        };
        let ghost c0 = self.content@;
        let cnt = html.nodes[n].children.len();
        let mut k: usize = 0;
        while k < cnt
            invariant
                html.wf(),
                n < html.nodes@.len(),
                cnt == html.nodes@[n as int].children@.len(),
                0 <= k <= cnt,
                c0 == old(self).content@,
                self.title == old(self).title,
                parse_selector("span.CopyrightRichText-richText"@) matches Some(sp) && sel@ == sp,
                first_match_from(*html, sel@, None, 0, html.nodes@.len() as int) == Some(
                    n as int,
                ),
                ({
                    let (pre, okpre) = md_kids(*html, n as int, 0, true);
                    let (rest, okrest) = md_kids(*html, n as int, k as int, true);
                    &&& self.content@ + rest == c0 + pre
                    &&& okrest == okpre
                }),
            decreases cnt - k,
        {
            proof {
                assert(html.node_ok(n as int));
            }
            let c = html.nodes[n].children[k];
            let ghost before = self.content@;
            let res = self.read_content_node(html, c);
            proof {
                let (h, okh) = md_node(*html, c as int, true);
                let (r2, ok2) = md_kids(*html, n as int, k + 1, true);
                if okh {
                    assert(md_kids(*html, n as int, k as int, true).0 == h + r2);
                    assert(self.content@ + r2 =~= before + md_kids(
                        *html,
                        n as int,
                        k as int,
                        true,
                    ).0);
                } else {
                    assert(md_kids(*html, n as int, k as int, true).0 == h);
                    assert(self.content@ =~= c0 + md_kids(*html, n as int, 0, true).0);
                }
            }
            match res {
                Ok(()) => {},
                Err(_) => {
                    proof {
                        assert(self.content@ =~= c0 + article_delta(*html));
                    }
                    return Ok(());
                },
            }
            k += 1;
        }
        proof {
            assert(self.content@ + md_kids(*html, n as int, cnt as int, true).0 =~= self.content@);
        }
        Ok(())
    }

    /// Appends the Markdown of one content subtree; an element the walk has
    /// no rule for yields the error naming it.
    fn read_content_node(&mut self, html: &Html, i: usize) -> (r: ZhihuResult<()>)
        requires
            html.wf(),
            i < html.nodes@.len(),
        ensures
            final(self).content@ == old(self).content@ + md_node(*html, i as int, true).0,
            final(self).title == old(self).title,
            (r is Ok) == md_node(*html, i as int, true).1,
            r matches Err(e) ==> e is UnknownElement,
    {
        match crate::extract::md_append(html, i, true, &mut self.content) {
            Ok(()) => Ok(()),
            Err(name) => Err(ZhihuError::UnknownElement(name)),
        }
    }
}

} // verus!
