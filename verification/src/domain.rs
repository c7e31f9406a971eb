//! The data model: raw post files, converted posts, and the post/tag index.

use vstd::prelude::*;
use crate::tags::tags_view;

verus! {

/// The build's configuration values, loaded outside the library.
pub struct Config {
    pub post_html_path: String,
    pub tag_html_path: String,
    pub site_url: String,
    pub site_directory: String,
}

/// A creation instant, held as plain values: seconds since the Unix epoch for
/// ordering, and the civil date for display.
#[derive(Clone, Copy, PartialEq, Eq, Structural)]
pub struct Created {
    pub unix_seconds: i64,
    pub year: i32,
    /// 1 through 12.
    pub month: u8,
    pub day: u8,
}

/// A raw post file, as read from the posts directory.
pub struct File {
    pub created: Created,
    pub filename: String,
    pub markdown: String,
}

/// Mathematical model of `File`.
pub struct FileS {
    pub created: Created,
    pub filename: Seq<char>,
    pub markdown: Seq<char>,
}

impl View for File {
    type V = FileS;

    open spec fn view(&self) -> FileS {
        FileS { created: self.created, filename: self.filename@, markdown: self.markdown@ }
    }
}

/// A converted post, ready for templating.
pub struct Content {
    pub created: String,
    pub filename: String,
    pub html: String,
    pub tags: Vec<String>,
    pub title: String,
}

/// Mathematical model of `Content`.
pub struct ContentS {
    pub created: Seq<char>,
    pub filename: Seq<char>,
    pub html: Seq<char>,
    pub tags: Seq<Seq<char>>,
    pub title: Seq<char>,
}

impl View for Content {
    type V = ContentS;

    open spec fn view(&self) -> ContentS {
        ContentS {
            created: self.created@,
            filename: self.filename@,
            html: self.html@,
            tags: tags_view(self.tags@),
            title: self.title@,
        }
    }
}

/// The model of a file list.
pub open spec fn files_view(s: Seq<File>) -> Seq<FileS> {
    Seq::new(s.len(), |i: int| s[i]@)
}

/// The model of a post table.
pub open spec fn posts_view(s: Seq<(String, Content)>) -> Seq<(Seq<char>, ContentS)> {
    Seq::new(s.len(), |i: int| (s[i].0@, s[i].1@))
}

/// The model of a tag index.
pub open spec fn tp_view(s: Seq<(String, Vec<String>)>) -> Seq<(Seq<char>, Seq<Seq<char>>)> {
    Seq::new(s.len(), |i: int| (s[i].0@, tags_view(s[i].1@)))
}

/// The post table, keyed by filename, and the inverted tag index; both keep
/// insertion order, so a build is reproducible.
pub struct PostMaps {
    pub posts: Vec<(String, Content)>,
    pub tag_posts: Vec<(String, Vec<String>)>,
}

/// Mathematical model of `PostMaps`.
pub struct PostMapsS {
    pub posts: Seq<(Seq<char>, ContentS)>,
    pub tag_posts: Seq<(Seq<char>, Seq<Seq<char>>)>,
}

impl View for PostMaps {
    type V = PostMapsS;

    open spec fn view(&self) -> PostMapsS {
        PostMapsS { posts: posts_view(self.posts@), tag_posts: tp_view(self.tag_posts@) }
    }
}

} // verus!
