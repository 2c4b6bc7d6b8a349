//! A named service and the lookup of one of its pages.

use vstd::prelude::*;
use vstd::string::StringExecFns;
use vstd::utf8::{encode_utf8, valid_utf8};
use crate::data::neuroscope_model_page::{decodes_to, is_corrupt, FileRead, NeuroscopeModelPage};
use crate::data::retrieve::neuroscope::{data_path_of, page_file_name, page_name};
use crate::failure::Failure;
use crate::service_provider::ServiceProvider;
use crate::text::{join, joined};

verus! {

/// How the file of a page is to be read.
#[derive(Clone, Copy, Debug, PartialEq, Eq, Structural)]
pub enum PageFormat {
    /// An encoded page.
    CompressedBinary,
    /// Text that is handed on as it is.
    RawText,
}

/// Where the page that a request asks for is kept: the directory that must
/// exist, the file in it, and how the file is to be read.
#[derive(Debug, PartialEq, Eq)]
pub struct PageRequest {
    pub directory: String,
    pub file: String,
    pub format: PageFormat,
}

/// What a request is answered with.
#[derive(Debug, PartialEq, Eq)]
pub enum Payload {
    /// A decoded page, which the caller renders in its interchange form.
    Page(NeuroscopeModelPage),
    /// The text of a file, unmodified.
    Text(String),
}

/// A service: a name under which pages can be asked for, and the way they are
/// kept.
#[derive(Debug, Clone, PartialEq, Eq)]
pub struct Service {
    name: String,
    provider: ServiceProvider,
}

/// The directory, below the directory of a model, in which a provider keeps
/// its pages.
pub open spec fn provider_directory(provider: ServiceProvider, model_path: Seq<char>) -> Seq<char> {
    match provider {
        ServiceProvider::Neuroscope => joined(model_path, "neuroscope"@),
        ServiceProvider::Json { path } => joined(model_path, path@),
    }
}

/// The file in which a provider keeps the page of a neuron.
pub open spec fn provider_file(
    provider: ServiceProvider,
    model_path: Seq<char>,
    layer: u32,
    neuron: u32,
) -> Seq<char> {
    match provider {
        ServiceProvider::Neuroscope => joined(
            provider_directory(provider, model_path),
            page_name(layer, neuron) + ".postcard"@,
        ),
        ServiceProvider::Json { .. } => joined(
            provider_directory(provider, model_path),
            page_name(layer, neuron) + ".json"@,
        ),
    }
}

/// How the files of a provider are read.
pub open spec fn provider_format(provider: ServiceProvider) -> PageFormat {
    match provider {
        ServiceProvider::Neuroscope => PageFormat::CompressedBinary,
        ServiceProvider::Json { .. } => PageFormat::RawText,
    }
}

/// Converts bytes to text with `String::from_utf8`.
///
/// Taken on trust, as the function's documentation says: the bytes are
/// accepted if and only if they are valid UTF-8, and the text then consists of
/// exactly those bytes.
#[verifier::external_body]
fn text_of_bytes(bytes: &Vec<u8>) -> (text: Option<String>)
    ensures
        text is Some <==> valid_utf8(bytes@),
        text is Some ==> encode_utf8(text->Some_0@) == bytes@,
{
    String::from_utf8(bytes.clone()).ok()
}

impl PageRequest {
    /// Answers the request, given whether its directory exists and what
    /// reading its file gave. A missing directory or file is `NotFound`, a
    /// failed read `IOError`, bytes that are no encoded page `CorruptData`, and
    /// a text file that is not UTF-8 `IOError`; each names the path.
    pub fn resolve(&self, directory_found: bool, read: &FileRead) -> (answer: Result<
        Payload,
        Failure,
    >)
        ensures
            !directory_found ==> (answer matches Err(Failure::NotFound { path }) && path@
                == self.directory@),
            directory_found ==> match *read {
                FileRead::Missing => answer matches Err(Failure::NotFound { path }) && path@
                    == self.file@,
                FileRead::Unreadable => answer matches Err(Failure::IOError { path }) && path@
                    == self.file@,
                FileRead::Bytes(bytes) => match self.format {
                    PageFormat::CompressedBinary => if is_corrupt(bytes@) {
                        answer matches Err(Failure::CorruptData { path }) && path@ == self.file@
                    } else {
                        answer matches Ok(Payload::Page(page)) && decodes_to(bytes@, page@)
                    },
                    PageFormat::RawText => if valid_utf8(bytes@) {
                        answer matches Ok(Payload::Text(text)) && encode_utf8(text@) == bytes@
                    } else {
                        answer matches Err(Failure::IOError { path }) && path@ == self.file@
                    },
                },
            },
    {
        if !directory_found {
            return Err(Failure::NotFound { path: self.directory.clone() });
        }
        match self.format {
            PageFormat::CompressedBinary => {
                match NeuroscopeModelPage::from_file(self.file.as_str(), read) {
                    Ok(page) => Ok(Payload::Page(page)),
                    Err(failure) => Err(failure),
                }
            },
            PageFormat::RawText => match read {
                FileRead::Missing => Err(Failure::NotFound { path: self.file.clone() }),
                FileRead::Unreadable => Err(Failure::IOError { path: self.file.clone() }),
                FileRead::Bytes(bytes) => match text_of_bytes(bytes) {
                    Some(text) => Ok(Payload::Text(text)),
                    None => Err(Failure::IOError { path: self.file.clone() }),
                },
            },
        }
    }
}

impl Service {
    /// The name of the service, as text.
    pub closed spec fn name_text(&self) -> Seq<char> {
        self.name@
    }

    /// The way the service keeps its pages.
    pub closed spec fn kept_by(&self) -> ServiceProvider {
        self.provider
    }

    /// A service of the given name and provider.
    pub fn new(name: &str, provider: ServiceProvider) -> (service: Self)
        ensures
            service.name_text() == name@,
            service.kept_by() == provider,
    {
        Self { name: name.to_owned(), provider }
    }

    /// The name of the service.
    pub fn name(&self) -> (name: &str)
        ensures
            name@ == self.name_text(),
    {
        self.name.as_str()
    }

    /// The way the service keeps its pages.
    pub fn provider(&self) -> (provider: &ServiceProvider)
        ensures
            *provider == self.kept_by(),
    {
        &self.provider
    }

    /// Where the service keeps the page of a neuron of the model whose
    /// directory is `model_path`.
    pub fn neuron_page(&self, model_path: &str, layer_index: u32, neuron_index: u32) -> (request:
        PageRequest)
        ensures
            request.directory@ == provider_directory(self.kept_by(), model_path@),
            request.file@ == provider_file(self.kept_by(), model_path@, layer_index, neuron_index),
            request.format == provider_format(self.kept_by()),
    {
        let name = page_file_name(layer_index, neuron_index);
        match &self.provider {
            ServiceProvider::Neuroscope => {
                let directory = join(model_path, "neuroscope");
                let file = join(directory.as_str(), name.concat(".postcard").as_str());
                PageRequest { directory, file, format: PageFormat::CompressedBinary }
            },
            ServiceProvider::Json { path } => {
                let directory = join(model_path, path.as_str());
                let file = join(directory.as_str(), name.concat(".json").as_str());
                PageRequest { directory, file, format: PageFormat::RawText }
            },
        }
    }
}

/// A service that keeps encoded pages reads the page of a neuron from the file
/// to which a stored batch writes it.
pub proof fn lemma_reads_where_batch_writes(
    data_path: Seq<char>,
    model: Seq<char>,
    layer: u32,
    neuron: u32,
)
    ensures
        provider_file(ServiceProvider::Neuroscope, joined(data_path, model), layer, neuron)
            == data_path_of(data_path, model, layer, neuron),
{
    let directory = joined(joined(data_path, model), "neuroscope"@);
    let name = page_name(layer, neuron);
    assert(name[0] == 'l');
    assert((name + ".postcard"@)[0] == 'l');
    assert(joined(directory, name + ".postcard"@) =~= joined(directory, name) + ".postcard"@);
}

} // verus!
