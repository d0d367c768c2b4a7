//! Posts: the messages of a thread.

use crate::error::SessionError;
use crate::layout::{layout, layout_text, INDENT};
use crate::markup::{body_text, comment_text_nodes, join_lines, join_text_nodes, texts};
use crate::paint::{shows_as, tinted, Palette, Tint};
use crate::text::{decimal, decimal_digits};
use vstd::prelude::*;
use vstd::string::*;

verus! {

/// A file attached to a post.
#[derive(Debug, PartialEq, Eq)]
pub struct Image {
    /// Name that the service gave the file.
    pub name: String,
    /// Name that the file had when it was sent in.
    pub fullname: String,
    /// Path of the file, relative to the root of the service.
    pub path: String,
}

/// A post of a thread.
#[derive(Debug, PartialEq, Eq)]
pub struct Post {
    /// Post number.
    pub id: usize,
    /// Post content, as markup.
    pub comment: String,
    /// Post date, as the service writes it.
    pub date: String,
    /// Files attached to the post.
    pub images: Vec<Image>,
}

/// An attached file as three character sequences.
pub struct ImageModel {
    pub name: Seq<char>,
    pub fullname: Seq<char>,
    pub path: Seq<char>,
}

/// A post as a number, two character sequences and its files.
pub struct PostModel {
    pub id: nat,
    pub comment: Seq<char>,
    pub date: Seq<char>,
    pub images: Seq<ImageModel>,
}

impl View for Image {
    type V = ImageModel;

    open spec fn view(&self) -> ImageModel {
        ImageModel { name: self.name@, fullname: self.fullname@, path: self.path@ }
    }
}

/// The models of a run of attached files.
pub open spec fn image_models(images: Seq<Image>) -> Seq<ImageModel> {
    images.map_values(|i: Image| i@)
}

impl View for Post {
    type V = PostModel;

    open spec fn view(&self) -> PostModel {
        PostModel {
            id: self.id as nat,
            comment: self.comment@,
            date: self.date@,
            images: image_models(self.images@),
        }
    }
}

impl Clone for Image {
    fn clone(&self) -> (copy: Image)
        ensures
            copy@ == self@,
    {
        Image { name: self.name.clone(), fullname: self.fullname.clone(), path: self.path.clone() }
    }
}

impl Clone for Post {
    fn clone(&self) -> (copy: Post)
        ensures
            copy@ == self@,
    {
        let mut images: Vec<Image> = Vec::new();
        let mut i: usize = 0;
        while i < self.images.len()
            invariant
                i <= self.images.len(),
                image_models(images@) == image_models(self.images@).take(i as int),
            decreases self.images.len() - i,
        {
            let ghost before = images@;
            let image = self.images[i].clone();
            images.push(image);
            assert(image_models(images@) =~= image_models(before).push(image@));
            assert(image_models(self.images@).take(i + 1) =~= image_models(self.images@).take(
                i as int,
            ).push(self.images@[i as int]@));
            i = i + 1;
        }
        assert(image_models(self.images@).take(i as int) =~= image_models(self.images@));
        Post { id: self.id, comment: self.comment.clone(), date: self.date.clone(), images }
    }
}

/// The models of a run of posts.
pub open spec fn post_models(posts: Seq<Post>) -> Seq<PostModel> {
    posts.map_values(|p: Post| p@)
}

/// The hint for an attached file: its name as it is shown, and below it
/// the command that fetches the file and opens it.
pub open spec fn image_hint(name_shown: Seq<char>, image: ImageModel) -> Seq<char> {
    name_shown + "\n  dvach --download "@ + image.path + " > "@ + image.name + " && xdg-open "@
        + image.name + "\n  "@
}

/// The hints for the files of a post, each under the name it is shown by.
pub open spec fn image_hints(names_shown: Seq<Seq<char>>, images: Seq<ImageModel>) -> Seq<
    Seq<char>,
> {
    Seq::new(images.len(), |i: int| image_hint(names_shown[i], images[i]))
}

/// The hints as they stand in a post: nothing where there is none, else a
/// line break and an indent, and the hints one per line.
pub open spec fn images_block(hints: Seq<Seq<char>>) -> Seq<char> {
    if hints.len() == 0 {
        Seq::empty()
    } else {
        "\n  "@ + join_lines(hints)
    }
}

/// A post put together: number and date on a line, the hints of its
/// files, and below them the body.
pub open spec fn post_block(
    id_shown: Seq<char>,
    date_shown: Seq<char>,
    images: Seq<char>,
    body: Seq<char>,
) -> Seq<char> {
    id_shown + seq![' '] + date_shown + images + seq!['\n'] + body
}

/// A post in a listing, with the number, the date and the names of the
/// files as they are shown.
pub open spec fn post_text_shown(
    post: PostModel,
    width: usize,
    id_shown: Seq<char>,
    date_shown: Seq<char>,
    names_shown: Seq<Seq<char>>,
) -> Seq<char> {
    post_block(
        id_shown,
        date_shown,
        images_block(image_hints(names_shown, post.images)),
        layout_text(body_text(post.comment), width, INDENT@),
    )
}

/// The names of the files of a post.
pub open spec fn full_names(images: Seq<ImageModel>) -> Seq<Seq<char>> {
    images.map_values(|i: ImageModel| i.fullname)
}

/// A post in a listing without colour.
pub open spec fn post_text(post: PostModel, width: usize) -> Seq<char> {
    post_text_shown(post, width, decimal_digits(post.id), post.date, full_names(post.images))
}

/// Each name is shown in one of the ways its file's name can be when it is
/// tinted yellow.
pub open spec fn names_show(names_shown: Seq<Seq<char>>, images: Seq<ImageModel>) -> bool {
    &&& names_shown.len() == images.len()
    &&& forall|i: int|
        0 <= i < images.len() ==> shows_as(
            #[trigger] names_shown[i],
            images[i].fullname,
            Tint::Yellow,
        )
}

/// The number, the date and the names are shown in ways they can be when
/// they are tinted: the number blue, the date green, the names yellow.
pub open spec fn post_shows(
    post: PostModel,
    id_shown: Seq<char>,
    date_shown: Seq<char>,
    names_shown: Seq<Seq<char>>,
) -> bool {
    &&& shows_as(id_shown, decimal_digits(post.id), Tint::Blue)
    &&& shows_as(date_shown, post.date, Tint::Green)
    &&& names_show(names_shown, post.images)
}

/// The body of a comment: its text nodes in document order, one per line.
/// The empty comment has the empty body.
pub fn parse_comment(comment: &str) -> (body: String)
    ensures
        body@ == body_text(comment@),
        comment@.len() == 0 ==> body@.len() == 0,
{
    let nodes = comment_text_nodes(comment);
    join_text_nodes(&nodes)
}

/// The posts of the first thread record of an answer. An answer without a
/// thread record breaks what the service is relied on for.
pub fn first_thread_posts(records: Vec<Vec<Post>>) -> (res: Result<Vec<Post>, SessionError>)
    ensures
        match res {
            Ok(posts) => records@.len() > 0 && posts == records@[0],
            Err(e) => records@.len() == 0 && e == SessionError::InvariantViolation,
        },
{
    let mut records = records;
    if records.len() == 0 {
        Err(SessionError::InvariantViolation)
    } else {
        Ok(records.remove(0))
    }
}

/// The hint for an attached file, under the name given for it.
pub fn format_image(name_shown: &str, image: &Image) -> (hint: String)
    ensures
        hint@ == image_hint(name_shown@, image@),
{
    let mut hint = name_shown.to_owned();
    hint.append("\n  dvach --download ");
    hint.append(image.path.as_str());
    hint.append(" > ");
    hint.append(image.name.as_str());
    hint.append(" && xdg-open ");
    hint.append(image.name.as_str());
    hint.append("\n  ");
    assert(hint@ =~= image_hint(name_shown@, image@));
    hint
}

/// The hints as they stand in a post: nothing where there is none, else a
/// line break and an indent, and the hints one per line.
pub fn join_hints(hints: &Vec<String>) -> (block: String)
    ensures
        block@ == images_block(texts(hints@)),
{
    if hints.len() == 0 {
        String::new()
    } else {
        let mut block = "\n  ".to_owned();
        let joined = join_text_nodes(hints);
        block.append(joined.as_str());
        block
    }
}

fn hints_of(images: &Vec<Image>, palette: Palette) -> (res: (Vec<String>, Ghost<Seq<Seq<char>>>))
    ensures
        names_show(res.1@, image_models(images@)),
        texts(res.0@) == image_hints(res.1@, image_models(images@)),
        palette == Palette::Plain ==> res.1@ == full_names(image_models(images@)),
{
    let mut hints: Vec<String> = Vec::new();
    let ghost mut names: Seq<Seq<char>> = Seq::empty();
    let ghost all = image_models(images@);
    let mut i: usize = 0;
    while i < images.len()
        invariant
            i <= images.len(),
            all == image_models(images@),
            names.len() == i,
            hints@.len() == i,
            forall|k: int|
                0 <= k < i ==> shows_as(#[trigger] names[k], all[k].fullname, Tint::Yellow),
            forall|k: int| 0 <= k < i ==> (#[trigger] hints@[k])@ == image_hint(names[k], all[k]),
            palette == Palette::Plain ==> forall|k: int|
                0 <= k < i ==> #[trigger] names[k] == all[k].fullname,
        decreases images.len() - i,
    {
        let shown = tinted(images[i].fullname.as_str(), Tint::Yellow, palette);
        let hint = format_image(shown.as_str(), &images[i]);
        proof {
            names = names.push(shown@);
        }
        hints.push(hint);
        i = i + 1;
    }
    proof {
        assert(texts(hints@) =~= image_hints(names, all));
        if palette == Palette::Plain {
            assert(names =~= full_names(all));
        }
    }
    (hints, Ghost(names))
}

/// The hints for the files of a post as they stand in the post. With a
/// palette that has colour the names are tinted yellow.
pub fn format_images(images: &Vec<Image>, palette: Palette) -> (block: String)
    ensures
        exists|names_shown: Seq<Seq<char>>|
            names_show(names_shown, image_models(images@)) && block@ == images_block(
                #[trigger] image_hints(names_shown, image_models(images@)),
            ),
        palette == Palette::Plain ==> block@ == images_block(
            image_hints(full_names(image_models(images@)), image_models(images@)),
        ),
{
    let (hints, Ghost(names)) = hints_of(images, palette);
    let block = join_hints(&hints);
    assert(block@ == images_block(image_hints(names, image_models(images@))));
    block
}

/// A post for a listing. With a palette that has colour the number is
/// tinted blue, the date green and the names of the files yellow, and each
/// comes out in one of the ways a tinted text can.
pub fn format_post(post: &Post, width: usize, palette: Palette) -> (block: String)
    ensures
        exists|id_shown: Seq<char>, date_shown: Seq<char>, names_shown: Seq<Seq<char>>|
            post_shows(post@, id_shown, date_shown, names_shown) && block@
                == #[trigger] post_text_shown(post@, width, id_shown, date_shown, names_shown),
        palette == Palette::Plain ==> block@ == post_text(post@, width),
{
    let number = decimal(post.id);
    let mut block = tinted(number.as_str(), Tint::Blue, palette);
    let ghost id_shown = block@;
    let date = tinted(post.date.as_str(), Tint::Green, palette);
    let (hints, Ghost(names)) = hints_of(&post.images, palette);
    let images = join_hints(&hints);
    let body = parse_comment(post.comment.as_str());
    let laid = layout(body.as_str(), width, INDENT);
    block.push(' ');
    block.append(date.as_str());
    block.append(images.as_str());
    block.push('\n');
    block.append(laid.as_str());
    assert(block@ =~= post_text_shown(post@, width, id_shown, date@, names));
    assert(post_shows(post@, id_shown, date@, names));
    block
}

} // verus!
