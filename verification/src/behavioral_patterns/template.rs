//! Template method: the flow is fixed in one place, its steps are filled in
//! elsewhere.

use crate::text::{join, join_with};
use vstd::prelude::*;
use vstd::string::StringExecFns;

verus! {

/// A text made of a title and a list. The flow is given by `run`; the steps
/// are left to the implementations.
pub trait TextTemplate {
    /// What `title` gives.
    spec fn title_spec(&self) -> Seq<char>;

    /// What `list_start` gives.
    spec fn list_start_spec(&self) -> Seq<char>;

    /// What `list_items` gives.
    spec fn list_items_spec(&self) -> Seq<char>;

    /// What `list_end` gives.
    spec fn list_end_spec(&self) -> Seq<char>;

    /// The whole text: the four steps in their order.
    fn run(&self) -> (text: String)
        ensures
            text@ == self.title_spec() + self.list_start_spec() + self.list_items_spec()
                + self.list_end_spec(),
    {
        let mut text = self.title();
        text.append(self.list_start().as_str());
        text.append(self.list_items().as_str());
        text.append(self.list_end().as_str());
        text
    }

    /// The title.
    fn title(&self) -> (text: String)
        ensures
            text@ == self.title_spec(),
    ;

    /// What stands before the items.
    fn list_start(&self) -> (text: String)
        ensures
            text@ == self.list_start_spec(),
    ;

    /// The items.
    fn list_items(&self) -> (text: String)
        ensures
            text@ == self.list_items_spec(),
    ;

    /// What stands behind the items.
    fn list_end(&self) -> (text: String)
        ensures
            text@ == self.list_end_spec(),
    ;
}

/// The text on one line: the title, a colon, the items with commas between.
pub struct SimpleText {
    pub title: String,
    pub items: Vec<String>,
}

impl TextTemplate for SimpleText {
    open spec fn title_spec(&self) -> Seq<char> {
        self.title@ + ": "@
    }

    open spec fn list_start_spec(&self) -> Seq<char> {
        Seq::empty()
    }

    open spec fn list_items_spec(&self) -> Seq<char> {
        join(self.items.deep_view(), ", "@)
    }

    open spec fn list_end_spec(&self) -> Seq<char> {
        Seq::empty()
    }

    fn title(&self) -> (text: String) {
        let mut text = self.title.clone();
        text.append(": ");
        text
    }

    fn list_start(&self) -> (text: String) {
        String::new()
    }

    fn list_items(&self) -> (text: String) {
        join_with(&self.items, ", ")
    }

    fn list_end(&self) -> (text: String) {
        String::new()
    }
}

/// The text as HTML: the title as a heading, the items as a list.
pub struct Html {
    pub title: String,
    pub items: Vec<String>,
}

/// One item of the list, between its tags.
pub open spec fn list_item(item: Seq<char>) -> Seq<char> {
    "<li>"@ + item + "</li>"@
}

impl TextTemplate for Html {
    open spec fn title_spec(&self) -> Seq<char> {
        "<h1>"@ + self.title@ + "</h1>"@
    }

    open spec fn list_start_spec(&self) -> Seq<char> {
        "<ul>"@
    }

    open spec fn list_items_spec(&self) -> Seq<char> {
        join(self.items.deep_view().map_values(|item: Seq<char>| list_item(item)), Seq::empty())
    }

    open spec fn list_end_spec(&self) -> Seq<char> {
        "</ul>"@
    }

    fn title(&self) -> (text: String) {
        let mut text = String::from_str("<h1>");
        text.append(self.title.as_str());
        text.append("</h1>");
        text
    }

    fn list_start(&self) -> (text: String) {
        String::from_str("<ul>")
    }

    fn list_items(&self) -> (text: String) {
        let mut tagged: Vec<String> = Vec::new();
        let mut i: usize = 0;
        let ghost items = self.items.deep_view();
        proof {
            assert(tagged.deep_view() == items.take(0).map_values(|item: Seq<char>| list_item(item)));
        }
        while i < self.items.len()
            invariant
                i <= self.items.len(),
                items == self.items.deep_view(),
                tagged.deep_view() == items.take(i as int).map_values(
                    |item: Seq<char>| list_item(item),
                ),
            decreases self.items.len() - i,
        {
            let ghost before = tagged.deep_view();
            let mut item = String::from_str("<li>");
            item.append(self.items[i].as_str());
            item.append("</li>");
            tagged.push(item);
            proof {
                assert(tagged.deep_view() == before.push(list_item(items[i as int])));
                assert(items.take(i + 1).map_values(|item: Seq<char>| list_item(item))
                    == items.take(i as int).map_values(|item: Seq<char>| list_item(item)).push(
                    list_item(items[i as int]),
                ));
            }
            i = i + 1;
        }
        proof {
            assert(items.take(self.items.len() as int) == items);
            reveal_strlit("");
            assert(""@ == Seq::<char>::empty());
        }
        join_with(&tagged, "")
    }

    fn list_end(&self) -> (text: String) {
        String::from_str("</ul>")
    }
}

} // verus!
