//! One page of the remote source: its locator, its place on disk, and what a
//! fetch of it comes to.

use vstd::prelude::*;
use vstd::string::StringExecFns;
use crate::data::neuroscope_model_page::NeuroscopeModelPage;
use crate::data::ordering::{is_canonical_order_of, Importance};
pub use crate::data::retrieve::batch::scrape_layer_to_files;
pub use crate::data::retrieve::collect::scrape_layer;
use crate::failure::Failure;
use crate::text::{decimal, decimal_string, join, joined, lemma_decimal_digits, lemma_decimal_injective};

verus! {

/// What a request for a page and the reading of its body gave.
#[derive(Debug)]
pub enum Response {
    /// No body came back: the request failed in transport or was refused.
    Unreachable,
    /// The body does not have the structure of a page.
    Malformed { excerpt: String },
    /// The entries read from the body, in the order of the body.
    Entries(Vec<Importance>),
}

/// What to do for one page of a batch that is stored to disk.
#[derive(Debug, PartialEq, Eq)]
pub enum ItemPlan {
    /// The page is stored already: nothing is fetched.
    Skip,
    /// Fetch the page from `locator` and store it at `target`.
    Fetch { locator: String, target: String },
}

/// The name of a page's file, without extension: `l<layer>n<neuron>`.
pub open spec fn page_name(layer: u32, neuron: u32) -> Seq<char> {
    seq!['l'] + decimal(layer as nat) + seq!['n'] + decimal(neuron as nat)
}

/// Where the page of a neuron is stored below the data directory:
/// `<data>/<model>/neuroscope/l<layer>n<neuron>.postcard`.
pub open spec fn data_path_of(data_path: Seq<char>, model: Seq<char>, layer: u32, neuron: u32) -> Seq<
    char,
> {
    joined(joined(joined(data_path, model), "neuroscope"@), page_name(layer, neuron))
        + ".postcard"@
}

/// The locator of a neuron's page:
/// `https://neuroscope.io/<model>/<layer>/<neuron>.html`.
pub open spec fn page_url_of(model: Seq<char>, layer: u32, neuron: u32) -> Seq<char> {
    "https://neuroscope.io/"@ + model + seq!['/'] + decimal(layer as nat) + seq!['/'] + decimal(
        neuron as nat,
    ) + ".html"@
}

/// What a fetch comes to, given the response: a page with the entries in
/// canonical order, or the failure that names the locator.
pub open spec fn is_fetch_result(
    locator: Seq<char>,
    response: Response,
    result: Result<NeuroscopeModelPage, Failure>,
) -> bool {
    match response {
        Response::Unreachable => result matches Err(Failure::TransportError { locator: l }) && l@
            == locator,
        Response::Malformed { excerpt } => result matches Err(
            Failure::ParseError { locator: l, excerpt: e },
        ) && l@ == locator && e@ == excerpt@,
        Response::Entries(entries) => result matches Ok(page) && is_canonical_order_of(
            page@,
            entries@,
        ),
    }
}

/// The name of a page's file, without extension.
pub fn page_file_name(layer_index: u32, neuron_index: u32) -> (name: String)
    ensures
        name@ == page_name(layer_index, neuron_index),
{
    proof {
        reveal_strlit("l");
        reveal_strlit("n");
    }
    let layer = decimal_string(layer_index);
    let neuron = decimal_string(neuron_index);
    let name = String::from_str("l").concat(layer.as_str()).concat("n").concat(neuron.as_str());
    assert(name@ =~= page_name(layer_index, neuron_index));
    name
}

/// Where the page of a neuron is stored below the data directory.
pub fn neuron_data_path(data_path: &str, model: &str, layer_index: u32, neuron_index: u32) -> (path:
    String)
    ensures
        path@ == data_path_of(data_path@, model@, layer_index, neuron_index),
{
    let model_dir = join(data_path, model);
    let pages_dir = join(model_dir.as_str(), "neuroscope");
    let name = page_file_name(layer_index, neuron_index);
    join(pages_dir.as_str(), name.as_str()).concat(".postcard")
}

/// The locator of a neuron's page.
pub fn neuron_page_url(model: &str, layer_index: u32, neuron_index: u32) -> (url: String)
    ensures
        url@ == page_url_of(model@, layer_index, neuron_index),
{
    proof {
        reveal_strlit("/");
    }
    let layer = decimal_string(layer_index);
    let neuron = decimal_string(neuron_index);
    let url = String::from_str("https://neuroscope.io/").concat(model).concat("/").concat(
        layer.as_str(),
    ).concat("/").concat(neuron.as_str()).concat(".html");
    assert(url@ =~= page_url_of(model@, layer_index, neuron_index));
    url
}

/// The page of a neuron, given what the request to its locator gave. Transport
/// and structure failures carry the locator; the entries of a good body are
/// put in canonical order.
pub fn scrape_neuron_page(model: &str, layer_index: u32, neuron_index: u32, response: Response) -> (result:
    Result<NeuroscopeModelPage, Failure>)
    ensures
        is_fetch_result(page_url_of(model@, layer_index, neuron_index), response, result),
{
    match response {
        Response::Unreachable => Err(
            Failure::TransportError { locator: neuron_page_url(model, layer_index, neuron_index) },
        ),
        Response::Malformed { excerpt } => Err(
            Failure::ParseError {
                locator: neuron_page_url(model, layer_index, neuron_index),
                excerpt,
            },
        ),
        Response::Entries(entries) => Ok(NeuroscopeModelPage::new(entries)),
    }
}

/// What to do for one page of a stored batch, given whether a file is already
/// at its place: a stored page is never fetched again.
pub fn scrape_neuron_page_to_file(
    data_path: &str,
    model: &str,
    layer_index: u32,
    neuron_index: u32,
    stored: bool,
) -> (plan: ItemPlan)
    ensures
        stored ==> plan == ItemPlan::Skip,
        !stored ==> (plan matches ItemPlan::Fetch { locator, target } && locator@ == page_url_of(
            model@,
            layer_index,
            neuron_index,
        ) && target@ == data_path_of(data_path@, model@, layer_index, neuron_index)),
{
    if stored {
        ItemPlan::Skip
    } else {
        ItemPlan::Fetch {
            locator: neuron_page_url(model, layer_index, neuron_index),
            target: neuron_data_path(data_path, model, layer_index, neuron_index),
        }
    }
}

/// The first character of a text that is no decimal digit stands behind
/// whatever digits the text starts with.
proof fn lemma_digits_then(a: Seq<char>, b: Seq<char>, rest_a: Seq<char>, rest_b: Seq<char>, mark: char)
    requires
        forall|i: int| 0 <= i < a.len() ==> '0' <= #[trigger] a[i] <= '9',
        forall|i: int| 0 <= i < b.len() ==> '0' <= #[trigger] b[i] <= '9',
        !('0' <= mark <= '9'),
        a + seq![mark] + rest_a == b + seq![mark] + rest_b,
    ensures
        a == b,
        rest_a == rest_b,
{
    let left = a + seq![mark] + rest_a;
    let right = b + seq![mark] + rest_b;
    if a.len() < b.len() {
        assert(left[a.len() as int] == mark);
        assert(right[a.len() as int] == b[a.len() as int]);
    } else if b.len() < a.len() {
        assert(right[b.len() as int] == mark);
        assert(left[b.len() as int] == a[b.len() as int]);
    }
    assert(a =~= b) by {
        assert forall|i: int| 0 <= i < a.len() implies a[i] == b[i] by {
            assert(left[i] == a[i]);
            assert(right[i] == b[i]);
        }
    }
    assert(rest_a =~= rest_b) by {
        assert(rest_a.len() == rest_b.len()) by {
            assert(left.len() == right.len());
        }
        assert forall|i: int| 0 <= i < rest_a.len() implies rest_a[i] == rest_b[i] by {
            assert(left[a.len() + 1 + i] == rest_a[i]);
            assert(right[b.len() + 1 + i] == rest_b[i]);
        }
    }
}

/// Different neurons have differently named pages.
pub proof fn lemma_page_name_injective(layer_a: u32, neuron_a: u32, layer_b: u32, neuron_b: u32)
    requires
        page_name(layer_a, neuron_a) == page_name(layer_b, neuron_b),
    ensures
        layer_a == layer_b,
        neuron_a == neuron_b,
{
    let la = decimal(layer_a as nat);
    let lb = decimal(layer_b as nat);
    let na = decimal(neuron_a as nat);
    let nb = decimal(neuron_b as nat);
    lemma_decimal_digits(layer_a as nat);
    lemma_decimal_digits(layer_b as nat);
    let name_a = page_name(layer_a, neuron_a);
    let name_b = page_name(layer_b, neuron_b);
    assert(la + seq!['n'] + na =~= name_a.subrange(1, name_a.len() as int));
    assert(lb + seq!['n'] + nb =~= name_b.subrange(1, name_b.len() as int));
    lemma_digits_then(la, lb, na, nb, 'n');
    lemma_decimal_injective(layer_a as nat, layer_b as nat);
    lemma_decimal_injective(neuron_a as nat, neuron_b as nat);
}

/// Different neurons of a layer are stored in different files, so tasks for
/// different neurons never write to the same place.
pub proof fn lemma_data_path_injective(
    data_path: Seq<char>,
    model: Seq<char>,
    layer_a: u32,
    neuron_a: u32,
    layer_b: u32,
    neuron_b: u32,
)
    requires
        data_path_of(data_path, model, layer_a, neuron_a) == data_path_of(
            data_path,
            model,
            layer_b,
            neuron_b,
        ),
    ensures
        layer_a == layer_b,
        neuron_a == neuron_b,
{
    let dir = joined(joined(data_path, model), "neuroscope"@);
    let name_a = page_name(layer_a, neuron_a);
    let name_b = page_name(layer_b, neuron_b);
    let lead = if dir.len() == 0 || dir.last() == '/' {
        dir
    } else {
        dir.push('/')
    };
    assert(name_a[0] == 'l' && name_b[0] == 'l');
    assert(joined(dir, name_a) =~= lead + name_a);
    assert(joined(dir, name_b) =~= lead + name_b);
    let path_a = lead + name_a + ".postcard"@;
    let path_b = lead + name_b + ".postcard"@;
    assert(path_a == path_b);
    assert(path_a.len() == path_b.len());
    assert(name_a.len() == name_b.len());
    assert(name_a =~= name_b) by {
        assert forall|i: int| 0 <= i < name_a.len() implies name_a[i] == name_b[i] by {
            assert(path_a[lead.len() + i] == name_a[i]);
            assert(path_b[lead.len() + i] == name_b[i]);
        }
    }
    lemma_page_name_injective(layer_a, neuron_a, layer_b, neuron_b);
}

/// The files on disk after a stored batch over the neurons `0` to `count - 1`
/// of a layer has completed, in terms of the files there were before.
pub open spec fn stored_after_batch(
    stored: Set<Seq<char>>,
    data_path: Seq<char>,
    model: Seq<char>,
    layer: u32,
    count: u32,
) -> Set<Seq<char>> {
    Set::new(
        |path: Seq<char>|
            stored.contains(path) || exists|neuron: u32|
                neuron < count && path == #[trigger] data_path_of(data_path, model, layer, neuron),
    )
}

/// The number of pages that a stored batch over the neurons `0` to
/// `count - 1` of a layer fetches, given the files on disk: one for every page
/// that is not stored yet.
pub open spec fn fetches_of_batch(
    stored: Set<Seq<char>>,
    data_path: Seq<char>,
    model: Seq<char>,
    layer: u32,
    count: u32,
) -> nat
    decreases count,
{
    if count == 0 {
        0
    } else {
        let neuron = (count - 1) as u32;
        let rest = fetches_of_batch(stored, data_path, model, layer, neuron);
        if stored.contains(data_path_of(data_path, model, layer, neuron)) {
            rest
        } else {
            rest + 1
        }
    }
}

/// A batch fetches nothing where every page of it is stored.
pub proof fn lemma_nothing_to_fetch(
    stored: Set<Seq<char>>,
    data_path: Seq<char>,
    model: Seq<char>,
    layer: u32,
    count: u32,
)
    requires
        forall|neuron: u32|
            neuron < count ==> stored.contains(
                #[trigger] data_path_of(data_path, model, layer, neuron),
            ),
    ensures
        fetches_of_batch(stored, data_path, model, layer, count) == 0,
    decreases count,
{
    if count > 0 {
        lemma_nothing_to_fetch(stored, data_path, model, layer, (count - 1) as u32);
    }
}

/// Idempotent skip: once a stored batch has completed, the same batch run
/// again fetches nothing.
pub proof fn lemma_second_run_fetches_nothing(
    stored: Set<Seq<char>>,
    data_path: Seq<char>,
    model: Seq<char>,
    layer: u32,
    count: u32,
)
    ensures
        fetches_of_batch(
            stored_after_batch(stored, data_path, model, layer, count),
            data_path,
            model,
            layer,
            count,
        ) == 0,
{
    lemma_nothing_to_fetch(
        stored_after_batch(stored, data_path, model, layer, count),
        data_path,
        model,
        layer,
        count,
    );
}

} // verus!
