//! The built-in table of categories and the lookup from an extension to the
//! category that owns it.

use vstd::prelude::*;
use vstd::string::*;

verus! {

/// A category: its name, which is also the name of its folder, and the
/// extensions it owns, in lower case and without the dot.
#[derive(Debug, PartialEq, Eq)]
pub struct Category {
    pub name: String,
    pub extensions: Vec<String>,
}

/// A category as contracts speak of it.
pub struct CategoryView {
    pub name: Seq<char>,
    pub extensions: Seq<Seq<char>>,
}

impl View for Category {
    type V = CategoryView;

    open spec fn view(&self) -> CategoryView {
        CategoryView {
            name: self.name@,
            extensions: Seq::new(self.extensions@.len(), |i: int| self.extensions@[i]@),
        }
    }
}

/// The views of a table's categories, in order.
pub open spec fn table_view(table: Seq<Category>) -> Seq<CategoryView> {
    Seq::new(table.len(), |i: int| table[i]@)
}

/// The category of every extension that the table does not hold.
pub open spec fn others() -> Seq<char> {
    "Others"@
}

pub open spec fn images() -> CategoryView {
    CategoryView {
        name: "Images"@,
        extensions: seq![
            "jpg"@, "jpeg"@, "png"@, "gif"@, "bmp"@, "tiff"@, "webp"@, "svg"@,
        ],
    }
}

pub open spec fn videos() -> CategoryView {
    CategoryView {
        name: "Videos"@,
        extensions: seq![
            "mp4"@, "avi"@, "mov"@, "wmv"@, "flv"@, "mkv"@, "webm"@, "m4v"@,
        ],
    }
}

pub open spec fn documents() -> CategoryView {
    CategoryView {
        name: "Documents"@,
        extensions: seq!["pdf"@, "doc"@, "docx"@, "txt"@, "rtf"@, "odt"@, "pages"@],
    }
}

pub open spec fn audio() -> CategoryView {
    CategoryView {
        name: "Audio"@,
        extensions: seq!["mp3"@, "wav"@, "flac"@, "aac"@, "ogg"@, "wma"@, "m4a"@],
    }
}

pub open spec fn archives() -> CategoryView {
    CategoryView {
        name: "Archives"@,
        extensions: seq!["zip"@, "rar"@, "7z"@, "tar"@, "gz"@, "bz2"@, "xz"@],
    }
}

pub open spec fn code() -> CategoryView {
    CategoryView {
        name: "Code"@,
        extensions: seq![
            "py"@, "js"@, "ts"@, "java"@, "cpp"@, "c"@, "h"@, "rs"@, "go"@, "php"@, "html"@,
            "css"@, "xml"@, "json"@, "yaml"@, "toml"@, "md"@,
        ],
    }
}

pub open spec fn spreadsheets() -> CategoryView {
    CategoryView {
        name: "Spreadsheets"@,
        extensions: seq!["xls"@, "xlsx"@, "csv"@, "ods"@, "numbers"@],
    }
}

pub open spec fn presentations() -> CategoryView {
    CategoryView {
        name: "Presentations"@,
        extensions: seq!["ppt"@, "pptx"@, "key"@, "odp"@],
    }
}

/// The built-in table: eight categories, each with the extensions it owns.
pub open spec fn default_table() -> Seq<CategoryView> {
    seq![
        images(),
        videos(),
        documents(),
        audio(),
        archives(),
        code(),
        spreadsheets(),
        presentations(),
    ]
}

/// The name of the first category of `table` that holds `extension`, or
/// `Others` where none does.
pub open spec fn lookup(table: Seq<CategoryView>, extension: Seq<char>) -> Seq<char>
    decreases table.len(),
{
    if table.len() == 0 {
        others()
    } else if table[0].extensions.contains(extension) {
        table[0].name
    } else {
        lookup(table.drop_first(), extension)
    }
}

/// Whether some category of `table` holds `extension`.
pub open spec fn listed(table: Seq<CategoryView>, extension: Seq<char>) -> bool {
    exists|i: int| 0 <= i < table.len() && (#[trigger] table[i]).extensions.contains(extension)
}

/// The category of an extension that is already in lower case.
pub open spec fn category_of(extension: Seq<char>) -> Seq<char> {
    lookup(default_table(), extension)
}

/// An extension that no category of the table holds falls to `Others`.
pub proof fn lemma_unlisted_is_others(table: Seq<CategoryView>, extension: Seq<char>)
    requires
        !listed(table, extension),
    ensures
        lookup(table, extension) == others(),
    decreases table.len(),
{
    if table.len() > 0 {
        assert(!table[0].extensions.contains(extension));
        let rest = table.drop_first();
        assert forall|i: int| 0 <= i < rest.len() implies !(#[trigger] rest[i]).extensions.contains(
            extension,
        ) by {
            assert(rest[i] == table[i + 1]);
        }
        lemma_unlisted_is_others(rest, extension);
    }
}

/// The character of `text` at `i`, or a blank past its end.
spec fn letter(text: Seq<char>, i: int) -> char {
    if 0 <= i < text.len() {
        text[i]
    } else {
        ' '
    }
}

/// The length of a text and its first four characters: enough to tell any
/// two extensions of the built-in table apart.
spec fn spelling(text: Seq<char>) -> (nat, char, char, char, char) {
    (text.len(), letter(text, 0), letter(text, 1), letter(text, 2), letter(text, 3))
}

/// No extension of the built-in table stands in two categories, nor twice in
/// one.
pub proof fn lemma_table_has_no_duplicate(a: int, j: int, b: int, k: int)
    requires
        0 <= a < default_table().len(),
        0 <= j < default_table()[a].extensions.len(),
        0 <= b < default_table().len(),
        0 <= k < default_table()[b].extensions.len(),
        a != b || j != k,
    ensures
        default_table()[a].extensions[j] != default_table()[b].extensions[k],
{
    reveal_strlit("jpg");
    assert(spelling("jpg"@) == (3nat, 'j', 'p', 'g', ' '));
    reveal_strlit("jpeg");
    assert(spelling("jpeg"@) == (4nat, 'j', 'p', 'e', 'g'));
    reveal_strlit("png");
    assert(spelling("png"@) == (3nat, 'p', 'n', 'g', ' '));
    reveal_strlit("gif");
    assert(spelling("gif"@) == (3nat, 'g', 'i', 'f', ' '));
    reveal_strlit("bmp");
    assert(spelling("bmp"@) == (3nat, 'b', 'm', 'p', ' '));
    reveal_strlit("tiff");
    assert(spelling("tiff"@) == (4nat, 't', 'i', 'f', 'f'));
    reveal_strlit("webp");
    assert(spelling("webp"@) == (4nat, 'w', 'e', 'b', 'p'));
    reveal_strlit("svg");
    assert(spelling("svg"@) == (3nat, 's', 'v', 'g', ' '));
    reveal_strlit("mp4");
    assert(spelling("mp4"@) == (3nat, 'm', 'p', '4', ' '));
    reveal_strlit("avi");
    assert(spelling("avi"@) == (3nat, 'a', 'v', 'i', ' '));
    reveal_strlit("mov");
    assert(spelling("mov"@) == (3nat, 'm', 'o', 'v', ' '));
    reveal_strlit("wmv");
    assert(spelling("wmv"@) == (3nat, 'w', 'm', 'v', ' '));
    reveal_strlit("flv");
    assert(spelling("flv"@) == (3nat, 'f', 'l', 'v', ' '));
    reveal_strlit("mkv");
    assert(spelling("mkv"@) == (3nat, 'm', 'k', 'v', ' '));
    reveal_strlit("webm");
    assert(spelling("webm"@) == (4nat, 'w', 'e', 'b', 'm'));
    reveal_strlit("m4v");
    assert(spelling("m4v"@) == (3nat, 'm', '4', 'v', ' '));
    reveal_strlit("pdf");
    assert(spelling("pdf"@) == (3nat, 'p', 'd', 'f', ' '));
    reveal_strlit("doc");
    assert(spelling("doc"@) == (3nat, 'd', 'o', 'c', ' '));
    reveal_strlit("docx");
    assert(spelling("docx"@) == (4nat, 'd', 'o', 'c', 'x'));
    reveal_strlit("txt");
    assert(spelling("txt"@) == (3nat, 't', 'x', 't', ' '));
    reveal_strlit("rtf");
    assert(spelling("rtf"@) == (3nat, 'r', 't', 'f', ' '));
    reveal_strlit("odt");
    assert(spelling("odt"@) == (3nat, 'o', 'd', 't', ' '));
    reveal_strlit("pages");
    assert(spelling("pages"@) == (5nat, 'p', 'a', 'g', 'e'));
    reveal_strlit("mp3");
    assert(spelling("mp3"@) == (3nat, 'm', 'p', '3', ' '));
    reveal_strlit("wav");
    assert(spelling("wav"@) == (3nat, 'w', 'a', 'v', ' '));
    reveal_strlit("flac");
    assert(spelling("flac"@) == (4nat, 'f', 'l', 'a', 'c'));
    reveal_strlit("aac");
    assert(spelling("aac"@) == (3nat, 'a', 'a', 'c', ' '));
    reveal_strlit("ogg");
    assert(spelling("ogg"@) == (3nat, 'o', 'g', 'g', ' '));
    reveal_strlit("wma");
    assert(spelling("wma"@) == (3nat, 'w', 'm', 'a', ' '));
    reveal_strlit("m4a");
    assert(spelling("m4a"@) == (3nat, 'm', '4', 'a', ' '));
    reveal_strlit("zip");
    assert(spelling("zip"@) == (3nat, 'z', 'i', 'p', ' '));
    reveal_strlit("rar");
    assert(spelling("rar"@) == (3nat, 'r', 'a', 'r', ' '));
    reveal_strlit("7z");
    assert(spelling("7z"@) == (2nat, '7', 'z', ' ', ' '));
    reveal_strlit("tar");
    assert(spelling("tar"@) == (3nat, 't', 'a', 'r', ' '));
    reveal_strlit("gz");
    assert(spelling("gz"@) == (2nat, 'g', 'z', ' ', ' '));
    reveal_strlit("bz2");
    assert(spelling("bz2"@) == (3nat, 'b', 'z', '2', ' '));
    reveal_strlit("xz");
    assert(spelling("xz"@) == (2nat, 'x', 'z', ' ', ' '));
    reveal_strlit("py");
    assert(spelling("py"@) == (2nat, 'p', 'y', ' ', ' '));
    reveal_strlit("js");
    assert(spelling("js"@) == (2nat, 'j', 's', ' ', ' '));
    reveal_strlit("ts");
    assert(spelling("ts"@) == (2nat, 't', 's', ' ', ' '));
    reveal_strlit("java");
    assert(spelling("java"@) == (4nat, 'j', 'a', 'v', 'a'));
    reveal_strlit("cpp");
    assert(spelling("cpp"@) == (3nat, 'c', 'p', 'p', ' '));
    reveal_strlit("c");
    assert(spelling("c"@) == (1nat, 'c', ' ', ' ', ' '));
    reveal_strlit("h");
    assert(spelling("h"@) == (1nat, 'h', ' ', ' ', ' '));
    reveal_strlit("rs");
    assert(spelling("rs"@) == (2nat, 'r', 's', ' ', ' '));
    reveal_strlit("go");
    assert(spelling("go"@) == (2nat, 'g', 'o', ' ', ' '));
    reveal_strlit("php");
    assert(spelling("php"@) == (3nat, 'p', 'h', 'p', ' '));
    reveal_strlit("html");
    assert(spelling("html"@) == (4nat, 'h', 't', 'm', 'l'));
    reveal_strlit("css");
    assert(spelling("css"@) == (3nat, 'c', 's', 's', ' '));
    reveal_strlit("xml");
    assert(spelling("xml"@) == (3nat, 'x', 'm', 'l', ' '));
    reveal_strlit("json");
    assert(spelling("json"@) == (4nat, 'j', 's', 'o', 'n'));
    reveal_strlit("yaml");
    assert(spelling("yaml"@) == (4nat, 'y', 'a', 'm', 'l'));
    reveal_strlit("toml");
    assert(spelling("toml"@) == (4nat, 't', 'o', 'm', 'l'));
    reveal_strlit("md");
    assert(spelling("md"@) == (2nat, 'm', 'd', ' ', ' '));
    reveal_strlit("xls");
    assert(spelling("xls"@) == (3nat, 'x', 'l', 's', ' '));
    reveal_strlit("xlsx");
    assert(spelling("xlsx"@) == (4nat, 'x', 'l', 's', 'x'));
    reveal_strlit("csv");
    assert(spelling("csv"@) == (3nat, 'c', 's', 'v', ' '));
    reveal_strlit("ods");
    assert(spelling("ods"@) == (3nat, 'o', 'd', 's', ' '));
    reveal_strlit("numbers");
    assert(spelling("numbers"@) == (7nat, 'n', 'u', 'm', 'b'));
    reveal_strlit("ppt");
    assert(spelling("ppt"@) == (3nat, 'p', 'p', 't', ' '));
    reveal_strlit("pptx");
    assert(spelling("pptx"@) == (4nat, 'p', 'p', 't', 'x'));
    reveal_strlit("key");
    assert(spelling("key"@) == (3nat, 'k', 'e', 'y', ' '));
    reveal_strlit("odp");
    assert(spelling("odp"@) == (3nat, 'o', 'd', 'p', ' '));
    assert(spelling(default_table()[a].extensions[j]) != spelling(
        default_table()[b].extensions[k],
    ));
}

/// Where category `i` holds an extension and none before it does, the lookup
/// gives the name of category `i`.
pub proof fn lemma_lookup_first_owner(table: Seq<CategoryView>, i: int, extension: Seq<char>)
    requires
        0 <= i < table.len(),
        table[i].extensions.contains(extension),
        forall|k: int| 0 <= k < i ==> !(#[trigger] table[k]).extensions.contains(extension),
    ensures
        lookup(table, extension) == table[i].name,
    decreases i,
{
    if i > 0 {
        let rest = table.drop_first();
        assert(rest[i - 1] == table[i]);
        assert(!table[0].extensions.contains(extension));
        assert forall|k: int| 0 <= k < i - 1 implies !(#[trigger] rest[k]).extensions.contains(
            extension,
        ) by {
            assert(rest[k] == table[k + 1]);
        }
        lemma_lookup_first_owner(rest, i - 1, extension);
    }
}

/// Every extension of the built-in table has the category that lists it.
pub proof fn lemma_listed_extension_has_its_category(i: int, j: int)
    requires
        0 <= i < default_table().len(),
        0 <= j < default_table()[i].extensions.len(),
    ensures
        category_of(default_table()[i].extensions[j]) == default_table()[i].name,
{
    let table = default_table();
    let extension = table[i].extensions[j];
    assert forall|k: int| 0 <= k < i implies !(#[trigger] table[k]).extensions.contains(
        extension,
    ) by {
        if table[k].extensions.contains(extension) {
            let m = choose|m: int| 0 <= m < table[k].extensions.len() && table[k].extensions[m] == extension;
            lemma_table_has_no_duplicate(k, m, i, j);
        }
    }
    lemma_lookup_first_owner(table, i, extension);
}

/// An extension that the built-in table does not hold has the category
/// `Others`.
pub proof fn lemma_unlisted_extension_is_others(extension: Seq<char>)
    requires
        !listed(default_table(), extension),
    ensures
        category_of(extension) == others(),
{
    lemma_unlisted_is_others(default_table(), extension);
}

/// Turns a list of words into owned texts, one for one.
fn owned_words(words: Vec<&'static str>) -> (texts: Vec<String>)
    ensures
        texts@.len() == words@.len(),
        forall|i: int| 0 <= i < words@.len() ==> texts@[i]@ == words@[i]@,
{
    let mut texts: Vec<String> = Vec::new();
    let mut i: usize = 0;
    while i < words.len()
        invariant
            i <= words@.len(),
            texts@.len() == i,
            forall|k: int| 0 <= k < i ==> texts@[k]@ == words@[k]@,
        decreases words@.len() - i,
    {
        texts.push(String::from_str(words[i]));
        i = i + 1;
    }
    texts
}

/// A category with the given name and extensions.
fn category(name: &'static str, words: Vec<&'static str>) -> (made: Category)
    ensures
        made@.name == name@,
        made@.extensions.len() == words@.len(),
        forall|i: int| 0 <= i < words@.len() ==> made@.extensions[i] == words@[i]@,
{
    Category { name: String::from_str(name), extensions: owned_words(words) }
}

/// Builds the built-in table.
pub fn default_categories() -> (table: Vec<Category>)
    ensures
        table_view(table@) == default_table(),
{
    let c_images = category("Images", vec!["jpg", "jpeg", "png", "gif", "bmp", "tiff", "webp", "svg"]);
    assert(c_images@.extensions =~= images().extensions);
    let c_videos = category("Videos", vec!["mp4", "avi", "mov", "wmv", "flv", "mkv", "webm", "m4v"]);
    assert(c_videos@.extensions =~= videos().extensions);
    let c_documents = category("Documents", vec!["pdf", "doc", "docx", "txt", "rtf", "odt", "pages"]);
    assert(c_documents@.extensions =~= documents().extensions);
    let c_audio = category("Audio", vec!["mp3", "wav", "flac", "aac", "ogg", "wma", "m4a"]);
    assert(c_audio@.extensions =~= audio().extensions);
    let c_archives = category("Archives", vec!["zip", "rar", "7z", "tar", "gz", "bz2", "xz"]);
    assert(c_archives@.extensions =~= archives().extensions);
    let c_code = category(
        "Code",
        vec![
            "py", "js", "ts", "java", "cpp", "c", "h", "rs", "go", "php", "html", "css", "xml",
            "json", "yaml", "toml", "md",
        ],
    );
    assert(c_code@.extensions =~= code().extensions);
    let c_spreadsheets = category("Spreadsheets", vec!["xls", "xlsx", "csv", "ods", "numbers"]);
    assert(c_spreadsheets@.extensions =~= spreadsheets().extensions);
    let c_presentations = category("Presentations", vec!["ppt", "pptx", "key", "odp"]);
    assert(c_presentations@.extensions =~= presentations().extensions);
    let table = vec![
        c_images,
        c_videos,
        c_documents,
        c_audio,
        c_archives,
        c_code,
        c_spreadsheets,
        c_presentations,
    ];
    assert(table_view(table@) =~= default_table());
    table
}

/// Looks an extension up in a table: the name of the first category that
/// holds it, or `Others`.
pub fn find_category<'a>(table: &'a Vec<Category>, extension: &str) -> (name: &'a str)
    ensures
        name@ == lookup(table_view(table@), extension@),
{
    let wanted = String::from_str(extension);
    let ghost full = table_view(table@);
    let mut i: usize = 0;
    assert(full.skip(0) =~= full);
    while i < table.len()
        invariant
            i <= table@.len(),
            full == table_view(table@),
            wanted@ == extension@,
            lookup(full, extension@) == lookup(full.skip(i as int), extension@),
        decreases table@.len() - i,
    {
        let entry = &table[i];
        let ghost rest = full.skip(i as int);
        assert(rest[0] == entry@);
        let mut j: usize = 0;
        while j < entry.extensions.len()
            invariant
                j <= entry.extensions@.len(),
                full == table_view(table@),
                wanted@ == extension@,
                rest[0] == entry@,
                rest.len() > 0,
                lookup(full, extension@) == lookup(rest, extension@),
                forall|k: int| 0 <= k < j ==> entry@.extensions[k] != extension@,
            decreases entry.extensions@.len() - j,
        {
            if entry.extensions[j] == wanted {
                assert(entry@.extensions[j as int] == extension@);
                assert(rest[0].extensions.contains(extension@));
                assert(lookup(rest, extension@) == rest[0].name);
                return entry.name.as_str();
            }
            j = j + 1;
        }
        assert(!rest[0].extensions.contains(extension@));
        assert(rest.drop_first() =~= full.skip(i + 1));
        i = i + 1;
    }
    assert(full.skip(i as int).len() == 0);
    "Others"
}

} // verus!
