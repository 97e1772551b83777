use vstd::prelude::*;
use vstd::utf8::{decode_utf8, valid_utf8};

use crate::text::{chars_eq, push_str, str_chars};
use crate::word::archive::{names_fit, pairs_view, read_zip, write_zip, zip_read, zip_written, ZipStage};
use crate::unicode::{utf8_error_text, utf8_to_string};
use crate::word::error::{word_error_message, word_error_type, WordCliError};

verus! {

/// The parts of a DOCX package: each part's name and bytes.
pub struct DocxPackage {
    entries: Vec<(String, Vec<u8>)>,
}

impl DocxPackage {
    #[verifier::type_invariant]
    spec fn unique_names(self) -> bool {
        names_unique(self.entries@)
    }
}

/// The parts as a map; a later entry of a name replaces an earlier one.
pub open spec fn entries_map(v: Seq<(String, Vec<u8>)>) -> Map<Seq<char>, Seq<u8>>
    decreases v.len(),
{
    if v.len() == 0 {
        Map::empty()
    } else {
        entries_map(v.drop_last()).insert(v.last().0@, v.last().1@)
    }
}

/// No two entries share a name.
pub open spec fn names_unique(v: Seq<(String, Vec<u8>)>) -> bool {
    forall|i: int, j: int| 0 <= i < j < v.len() ==> (#[trigger] v[i]).0@ != (#[trigger] v[j]).0@
}

pub proof fn lemma_update_last(v: Seq<(String, Vec<u8>)>, i: int, e: (String, Vec<u8>))
    requires
        0 <= i < v.len(),
        v[i].0@ == e.0@,
        forall|j: int| i < j < v.len() ==> (#[trigger] v[j]).0@ != e.0@,
    ensures
        entries_map(v.update(i, e)) == entries_map(v).insert(e.0@, e.1@),
    decreases v.len(),
{
    if i == v.len() - 1 {
        assert(v.update(i, e).drop_last() == v.drop_last());
        assert(entries_map(v.update(i, e)) =~= entries_map(v).insert(e.0@, e.1@));
    } else {
        assert(v.update(i, e).drop_last() == v.drop_last().update(i, e));
        lemma_update_last(v.drop_last(), i, e);
        assert(entries_map(v.update(i, e)) =~= entries_map(v).insert(e.0@, e.1@));
    }
}

impl View for DocxPackage {
    type V = Map<Seq<char>, Seq<u8>>;

    closed spec fn view(&self) -> Map<Seq<char>, Seq<u8>> {
        entries_map(self.entries@)
    }
}

/// The main part of a WordprocessingML document.
pub open spec fn document_part() -> Seq<char> {
    "word/document.xml"@
}

/// The text of a part: `Err(0)` when it is missing, `Err(1)` when it is
/// not UTF-8.
pub open spec fn part_text(m: Map<Seq<char>, Seq<u8>>, path: Seq<char>) -> Result<Seq<char>, int> {
    if !m.contains_key(path) {
        Err(0)
    } else if !valid_utf8(m[path]) {
        Err(1)
    } else {
        Ok(decode_utf8(m[path]))
    }
}

pub proof fn lemma_entries_map_prefix(v: Seq<(String, Vec<u8>)>, j: int, key: Seq<char>)
    requires
        0 <= j <= v.len(),
        forall|k: int| j <= k < v.len() ==> (#[trigger] v[k]).0@ != key,
    ensures
        entries_map(v).contains_key(key) == entries_map(v.take(j)).contains_key(key),
        entries_map(v).contains_key(key) ==> entries_map(v)[key] == entries_map(v.take(j))[key],
    decreases v.len() - j,
{
    if j < v.len() {
        lemma_entries_map_prefix(v.drop_last(), j, key);
        assert(v.drop_last().take(j) == v.take(j));
    } else {
        assert(v.take(j) == v);
    }
}

/// Each entry of a package without repeated names is in its map.
pub proof fn lemma_entry_in_map(v: Seq<(String, Vec<u8>)>, i: int)
    requires
        names_unique(v),
        0 <= i < v.len(),
    ensures
        entries_map(v).contains_key(v[i].0@),
        entries_map(v)[v[i].0@] == v[i].1@,
{
    assert forall|k: int| i + 1 <= k < v.len() implies (#[trigger] v[k]).0@ != v[i].0@ by {
        assert(v[i].0@ != v[k].0@);
    }
    lemma_entries_map_prefix(v, i + 1, v[i].0@);
    assert(v.take(i + 1).drop_last() == v.take(i));
}

/// Named parts as a map; a later part of a name replaces an earlier one.
pub open spec fn pairs_map(v: Seq<(Seq<char>, Seq<u8>)>) -> Map<Seq<char>, Seq<u8>>
    decreases v.len(),
{
    if v.len() == 0 {
        Map::empty()
    } else {
        pairs_map(v.drop_last()).insert(v.last().0, v.last().1)
    }
}

pub proof fn lemma_pairs_map(v: Seq<(String, Vec<u8>)>)
    ensures
        pairs_map(pairs_view(v)) == entries_map(v),
    decreases v.len(),
{
    if v.len() > 0 {
        assert(pairs_view(v).drop_last() == pairs_view(v.drop_last()));
        lemma_pairs_map(v.drop_last());
    }
}

/// A name that ends in `/` or `\`: a directory entry of an archive.
pub open spec fn is_dir_name(n: Seq<char>) -> bool {
    n.len() > 0 && (n.last() == '/' || n.last() == '\\')
}

/// The file entries, in order.
pub open spec fn file_pairs(v: Seq<(Seq<char>, Seq<u8>)>) -> Seq<(Seq<char>, Seq<u8>)> {
    v.filter(|e: (Seq<char>, Seq<u8>)| !is_dir_name(e.0))
}

/// The message of a package without its main document part.
pub open spec fn missing_document_message() -> Seq<char> {
    "非合规 DOCX 文档: 缺少核心组件 'word/document.xml'"@
}

/// An error as its `error_type` and its message.
pub type ErrorView = (Seq<char>, Seq<char>);

pub open spec fn error_view(e: WordCliError) -> ErrorView {
    (word_error_type(e), word_error_message(e))
}

/// The package of the parts, or the error for one without its main part.
pub open spec fn checked_package(m: Map<Seq<char>, Seq<u8>>) -> Result<Map<Seq<char>, Seq<u8>>, ErrorView> {
    if m.contains_key(document_part()) {
        Ok(m)
    } else {
        Err(("CorruptedDocument"@, missing_document_message()))
    }
}

/// Opening the bytes of a `.docx` file: a zip error is a corrupted
/// document, an I/O error reading an entry is not-found or an execution
/// error by its kind.
pub open spec fn opened_file(bytes: Seq<u8>) -> Result<Map<Seq<char>, Seq<u8>>, ErrorView> {
    match zip_read(bytes) {
        Ok(es) => checked_package(pairs_map(es)),
        Err((stage, m, not_found)) => Err(
            match stage {
                ZipStage::Content => if not_found {
                    ("FileNotFound"@, m)
                } else {
                    ("ExecutionError"@, "系统底层 I/O 执行异常: "@ + m)
                },
                _ => ("CorruptedDocument"@, "ZIP包解压或处理异常: "@ + m),
            },
        ),
    }
}

/// Opening a `.docx` held in memory: its file entries only, each failure
/// with its own message.
pub open spec fn opened_bytes(bytes: Seq<u8>) -> Result<Map<Seq<char>, Seq<u8>>, ErrorView> {
    match zip_read(bytes) {
        Ok(es) => checked_package(pairs_map(file_pairs(es))),
        Err((stage, m, _)) => Err(
            match stage {
                ZipStage::Archive => ("CorruptedDocument"@, "无法解析内置模板压缩包："@ + m),
                ZipStage::Entry => ("CorruptedDocument"@, "读取压缩包条目失败："@ + m),
                ZipStage::Content => ("IoError"@, "读取条目内容失败："@ + m),
            },
        ),
    }
}

/// The error of a failed write, by the step that failed.
pub open spec fn saved_error(stage: ZipStage, name: Seq<char>, m: Seq<char>) -> ErrorView {
    match stage {
        ZipStage::Entry => ("IoError"@, "写入压缩包条目元数据失败 ("@ + name + "): "@ + m),
        ZipStage::Content => ("IoError"@, "写入条目内容数据失败 ("@ + name + "): "@ + m),
        ZipStage::Archive => ("IoError"@, "完成 docx 最终封装打包失败："@ + m),
    }
}

impl DocxPackage {
    /// A package with the given parts, in order; a later part of a name
    /// replaces an earlier one.
    pub fn from_entries(entries: Vec<(String, Vec<u8>)>) -> (p: Self)
        ensures
            p@ == entries_map(entries@),
    {
        let mut p = DocxPackage { entries: Vec::new() };
        assert(p@ =~= entries_map(entries@.take(0)));
        let mut i: usize = 0;
        while i < entries.len()
            invariant
                i <= entries.len(),
                p@ == entries_map(entries@.take(i as int)),
            decreases entries.len() - i,
        {
            p.put(entries[i].0.as_str(), entries[i].1.clone());
            assert(entries@.take(i + 1).drop_last() == entries@.take(i as int));
            i += 1;
        }
        assert(entries@.take(entries.len() as int) == entries@);
        p
    }

    /// Stores the bytes of a part, replacing any earlier content.
    pub fn put(&mut self, path: &str, bytes: Vec<u8>)
        ensures
            final(self)@ == old(self)@.insert(path@, bytes@),
    {
        proof {
            use_type_invariant(&*self);
        }
        let ghost b = bytes@;
        match self.find_entry(path) {
            Some(i) => {
                let key = str_chars(path);
                let e = (crate::text::string_from_chars(key.as_slice()), bytes);
                proof {
                    lemma_update_last(self.entries@, i as int, e);
                }
                let mut entries: Vec<(String, Vec<u8>)> = Vec::new();
                std::mem::swap(&mut entries, &mut self.entries);
                let ghost before = entries@;
                entries.set(i, e);
                assert forall|x: int, y: int| 0 <= x < y < entries@.len() implies (#[trigger] entries@[x]).0@ != (#[trigger] entries@[y]).0@ by {
                    assert(entries@[x].0@ == before[x].0@);
                    assert(entries@[y].0@ == before[y].0@);
                };
                self.entries = entries;
            },
            None => {
                let key = str_chars(path);
                let e = (crate::text::string_from_chars(key.as_slice()), bytes);
                let mut entries: Vec<(String, Vec<u8>)> = Vec::new();
                std::mem::swap(&mut entries, &mut self.entries);
                entries.push(e);
                assert(entries@.drop_last() == old(self).entries@);
                assert forall|x: int, y: int| 0 <= x < y < entries@.len() implies (#[trigger] entries@[x]).0@ != (#[trigger] entries@[y]).0@ by {
                    if y == entries@.len() - 1 {
                        lemma_entries_map_prefix(old(self).entries@, x + 1, entries@[x].0@);
                    }
                };
                self.entries = entries;
            },
        }
    }

    /// The parts, for writing the package out.
    pub fn entries(&self) -> (r: &Vec<(String, Vec<u8>)>)
        ensures
            entries_map(r@) == self@,
            names_unique(r@),
    {
        proof {
            use_type_invariant(self);
        }
        &self.entries
    }

    /// Whether the package holds a part of that name.
    pub fn has_part(&self, path: &str) -> (b: bool)
        ensures
            b == self@.contains_key(path@),
    {
        self.find_entry(path).is_some()
    }

    /// Position of the entry that holds a part, if any.
    fn find_entry(&self, path: &str) -> (r: Option<usize>)
        ensures
            r is None ==> !self@.contains_key(path@),
            r matches Some(i) ==> i < self.entries@.len() && self@.contains_key(path@)
                && self@[path@] == self.entries@[i as int].1@ && self.entries@[i as int].0@ == path@
                && forall|j: int| i < j < self.entries@.len() ==> (#[trigger] self.entries@[j]).0@ != path@,
    {
        let key = str_chars(path);
        let mut j = self.entries.len();
        while j > 0
            invariant
                j <= self.entries.len(),
                key@ == path@,
                forall|k: int| j <= k < self.entries@.len() ==> (#[trigger] self.entries@[k]).0@ != path@,
            decreases j,
        {
            if chars_eq(str_chars(self.entries[j - 1].0.as_str()).as_slice(), key.as_slice()) {
                proof {
                    lemma_entries_map_prefix(self.entries@, j as int, path@);
                    assert(self.entries@.take(j as int).drop_last() == self.entries@.take(j - 1));
                }
                return Some(j - 1);
            }
            j -= 1;
        }
        proof {
            lemma_entries_map_prefix(self.entries@, 0, path@);
        }
        None
    }

    /// The package has its main document part.
    pub fn validate_structure(&self) -> (r: Result<(), WordCliError>)
        ensures
            r is Ok <==> self@.contains_key(document_part()),
            r matches Err(e) ==> e is CorruptedDocument,
    {
        match self.find_entry("word/document.xml") {
            Some(_) => Ok(()),
            None => Err(WordCliError::CorruptedDocument("非合规 DOCX 文档: 缺少核心组件 'word/document.xml'".to_owned())),
        }
    }

    /// The text of a part: not found when the part is missing, corrupted
    /// when it is not UTF-8.
    pub fn get_text(&self, path: &str) -> (r: Result<String, WordCliError>)
        ensures
            r matches Ok(s) ==> part_text(self@, path@) == Ok::<Seq<char>, int>(s@),
            r matches Err(e) ==> (part_text(self@, path@) == Err::<Seq<char>, int>(0) && e is NotFound
                && e->NotFound_0@ == "文档中缺少必要组件："@ + path@)
                || (part_text(self@, path@) == Err::<Seq<char>, int>(1) && e is CorruptedDocument
                && e->CorruptedDocument_0@ == "XML 文本编码解析错误 ("@ + path@ + "): "@ + utf8_error_text(self@[path@])),
    {
        match self.find_entry(path) {
            None => {
                let mut msg = "文档中缺少必要组件：".to_owned();
                crate::text::push_str(&mut msg, path);
                Err(WordCliError::NotFound(msg))
            },
            Some(i) => match utf8_to_string(self.entries[i].1.as_slice()) {
                Ok(s) => Ok(s),
                Err(m) => {
                    let mut msg = "XML 文本编码解析错误 (".to_owned();
                    crate::text::push_str(&mut msg, path);
                    crate::text::push_str(&mut msg, "): ");
                    crate::text::push_str(&mut msg, m.as_str());
                    Err(WordCliError::CorruptedDocument(msg))
                },
            },
        }
    }

    /// Stores `content` as the part's text (UTF-8).
    pub fn set_text(&mut self, path: &str, content: String)
        ensures
            final(self)@ == old(self)@.insert(path@, vstd::utf8::encode_utf8(content@)),
    {
        let bytes = crate::text::string_bytes(&content);
        self.put(path, bytes);
    }

    /// The parts in the order they are written out.
    pub closed spec fn parts(&self) -> Seq<(Seq<char>, Seq<u8>)> {
        pairs_view(self.entries@)
    }

    pub proof fn lemma_parts(&self)
        ensures
            pairs_map(self.parts()) == self@,
    {
        lemma_pairs_map(self.entries@);
    }

    fn checked(entries: Vec<(String, Vec<u8>)>) -> (r: Result<Self, WordCliError>)
        ensures
            match checked_package(entries_map(entries@)) {
                Ok(m) => r matches Ok(p) && p@ == m,
                Err(ev) => r matches Err(e) && error_view(e) == ev,
            },
    {
        let p = DocxPackage::from_entries(entries);
        match p.validate_structure() {
            Ok(()) => Ok(p),
            Err(_) => Err(WordCliError::CorruptedDocument("非合规 DOCX 文档: 缺少核心组件 'word/document.xml'".to_owned())),
        }
    }

    /// Opens the bytes of a `.docx` file: every entry of its archive, in
    /// archive order; the package must hold its main document part.
    pub fn from_file_bytes(bytes: &[u8]) -> (r: Result<Self, WordCliError>)
        ensures
            match opened_file(bytes@) {
                Ok(m) => r matches Ok(p) && p@ == m,
                Err(ev) => r matches Err(e) && error_view(e) == ev,
            },
    {
        match read_zip(bytes) {
            Ok(entries) => {
                proof {
                    lemma_pairs_map(entries@);
                }
                Self::checked(entries)
            },
            Err((stage, m, not_found)) => {
                let e = match stage {
                    ZipStage::Content => if not_found {
                        WordCliError::FileNotFound(m)
                    } else {
                        let mut msg = "系统底层 I/O 执行异常: ".to_owned();
                        push_str(&mut msg, m.as_str());
                        WordCliError::ExecutionError(msg)
                    },
                    _ => {
                        let mut msg = "ZIP包解压或处理异常: ".to_owned();
                        push_str(&mut msg, m.as_str());
                        WordCliError::CorruptedDocument(msg)
                    },
                };
                Err(e)
            },
        }
    }

    /// Opens a `.docx` held in memory: the file entries of its archive
    /// (directories left out); the package must hold its main document part.
    pub fn from_bytes(bytes: &[u8]) -> (r: Result<Self, WordCliError>)
        ensures
            match opened_bytes(bytes@) {
                Ok(m) => r matches Ok(p) && p@ == m,
                Err(ev) => r matches Err(e) && error_view(e) == ev,
            },
    {
        match read_zip(bytes) {
            Ok(entries) => {
                let mut files: Vec<(String, Vec<u8>)> = Vec::new();
                let mut i: usize = 0;
                while i < entries.len()
                    invariant
                        i <= entries.len(),
                        pairs_view(files@) == file_pairs(pairs_view(entries@).take(i as int)),
                    decreases entries.len() - i,
                {
                    let ghost before = files@;
                    let name = str_chars(entries[i].0.as_str());
                    let n = name.len();
                    let dir = n > 0 && (name[n - 1] == '/' || name[n - 1] == '\\');
                    let ghost t = pairs_view(entries@).take(i + 1);
                    assert(t.drop_last() == pairs_view(entries@).take(i as int));
                    assert(t.last() == pairs_view(entries@)[i as int]);
                    assert(t.last().0 == name@);
                    assert(dir == is_dir_name(t.last().0));
                    reveal(Seq::filter);
                    assert(file_pairs(t) == if !is_dir_name(t.last().0) {
                        file_pairs(t.drop_last()).push(t.last())
                    } else {
                        file_pairs(t.drop_last())
                    });
                    if !dir {
                        files.push((entries[i].0.clone(), entries[i].1.clone()));
                        assert(pairs_view(files@) == pairs_view(before).push(pairs_view(entries@)[i as int]));
                    }
                    i += 1;
                }
                assert(pairs_view(entries@).take(entries.len() as int) == pairs_view(entries@));
                proof {
                    lemma_pairs_map(files@);
                }
                Self::checked(files)
            },
            Err((stage, m, _)) => {
                let e = match stage {
                    ZipStage::Archive => {
                        let mut msg = "无法解析内置模板压缩包：".to_owned();
                        push_str(&mut msg, m.as_str());
                        WordCliError::CorruptedDocument(msg)
                    },
                    ZipStage::Entry => {
                        let mut msg = "读取压缩包条目失败：".to_owned();
                        push_str(&mut msg, m.as_str());
                        WordCliError::CorruptedDocument(msg)
                    },
                    ZipStage::Content => {
                        let mut msg = "读取条目内容失败：".to_owned();
                        push_str(&mut msg, m.as_str());
                        WordCliError::IoError(msg)
                    },
                };
                Err(e)
            },
        }
    }

    /// The bytes of the package as a `.docx` archive, its parts deflated in
    /// order. Opening those bytes as a file gives back the same parts, when
    /// the package has its main part and every name fits a zip header.
    pub fn to_bytes(&self) -> (r: Result<Vec<u8>, WordCliError>)
        ensures
            match zip_written(self.parts()) {
                Ok(b) => r matches Ok(v) && v@ == b,
                Err((stage, name, m)) => r matches Err(e) && error_view(e) == saved_error(stage, name, m),
            },
            r matches Ok(v) ==> names_fit(self.parts()) && self@.contains_key(document_part())
                ==> opened_file(v@) == Ok::<Map<Seq<char>, Seq<u8>>, ErrorView>(self@),
    {
        proof {
            self.lemma_parts();
        }
        match write_zip(&self.entries) {
            Ok(b) => Ok(b),
            Err((stage, name, m)) => {
                let mut msg = String::new();
                match stage {
                    ZipStage::Entry => {
                        push_str(&mut msg, "写入压缩包条目元数据失败 (");
                        push_str(&mut msg, name.as_str());
                        push_str(&mut msg, "): ");
                    },
                    ZipStage::Content => {
                        push_str(&mut msg, "写入条目内容数据失败 (");
                        push_str(&mut msg, name.as_str());
                        push_str(&mut msg, "): ");
                    },
                    ZipStage::Archive => {
                        push_str(&mut msg, "完成 docx 最终封装打包失败：");
                    },
                }
                push_str(&mut msg, m.as_str());
                Err(WordCliError::IoError(msg))
            },
        }
    }
}


/// The entity that stands for a character in XML text and attributes.
pub open spec fn escape_char(c: char) -> Seq<char> {
    if c == '&' {
        "&amp;"@
    } else if c == '<' {
        "&lt;"@
    } else if c == '>' {
        "&gt;"@
    } else if c == '"' {
        "&quot;"@
    } else if c == '\'' {
        "&apos;"@
    } else {
        seq![c]
    }
}

/// `s` with `&`, `<`, `>`, `"` and `'` written as entities.
pub open spec fn escape_spec(s: Seq<char>) -> Seq<char>
    decreases s.len(),
{
    if s.len() == 0 {
        Seq::empty()
    } else {
        escape_spec(s.drop_last()) + escape_char(s.last())
    }
}

/// Escapes the five XML special characters.
pub fn escape_xml(input: &str) -> (r: String)
    ensures
        r@ == escape_spec(input@),
{
    let v = str_chars(input);
    let mut out = String::new();
    let mut i: usize = 0;
    while i < v.len()
        invariant
            i <= v.len(),
            v@ == input@,
            out@ == escape_spec(v@.take(i as int)),
        decreases v.len() - i,
    {
        let c = v[i];
        if c == '&' {
            crate::text::push_str(&mut out, "&amp;");
        } else if c == '<' {
            crate::text::push_str(&mut out, "&lt;");
        } else if c == '>' {
            crate::text::push_str(&mut out, "&gt;");
        } else if c == '"' {
            crate::text::push_str(&mut out, "&quot;");
        } else if c == '\'' {
            crate::text::push_str(&mut out, "&apos;");
        } else {
            out.push(c);
        }
        assert(v@.take(i + 1).drop_last() == v@.take(i as int));
        i += 1;
    }
    assert(v@.take(v.len() as int) == v@);
    out
}

/// Reading a part gives back exactly the text last stored in it, and
/// storing a text leaves every other part as it was.
pub proof fn law_part_text_round_trip(m: Map<Seq<char>, Seq<u8>>, path: Seq<char>, text: Seq<char>, other: Seq<char>)
    requires
        other != path,
    ensures
        part_text(m.insert(path, vstd::utf8::encode_utf8(text)), path) == Ok::<Seq<char>, int>(text),
        part_text(m.insert(path, vstd::utf8::encode_utf8(text)), other) == part_text(m, other),
{
    vstd::utf8::encode_utf8_valid_utf8(text);
    vstd::utf8::encode_utf8_decode_utf8(text);
}

/// Escaped text holds no `<`, `>`, `"` or `'`.
pub proof fn law_escape_is_markup_free(s: Seq<char>)
    ensures
        forall|i: int| 0 <= i < escape_spec(s).len() ==> {
            let c = #[trigger] escape_spec(s)[i];
            c != '<' && c != '>' && c != '"' && c != '\''
        },
    decreases s.len(),
{
    if s.len() > 0 {
        law_escape_is_markup_free(s.drop_last());
        let a = escape_spec(s.drop_last());
        let b = escape_char(s.last());
        reveal_strlit("&amp;");
        reveal_strlit("&lt;");
        reveal_strlit("&gt;");
        reveal_strlit("&quot;");
        reveal_strlit("&apos;");
        assert forall|i: int| 0 <= i < escape_spec(s).len() implies {
            let c = #[trigger] escape_spec(s)[i];
            c != '<' && c != '>' && c != '"' && c != '\''
        } by {
            if i < a.len() {
                assert(escape_spec(s)[i] == a[i]);
            } else {
                assert(escape_spec(s)[i] == b[i - a.len()]);
            }
        }
    }
}

} // verus!
