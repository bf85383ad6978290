//! A request to be made with the `curl` command, and the arguments that
//! make it.

use vstd::prelude::*;

verus! {

/// The request methods that can be asked for.
#[derive(Debug, Clone, Copy, PartialEq, Eq)]
pub enum Method {
    GET,
    POST,
    PUT,
    DELETE,
}

/// The entry point: `Curl::new` starts a request.
pub struct Curl;

/// A request under construction.
#[derive(Debug)]
pub struct CurlBuilder {
    /// The URL to send the request to.
    url: String,
    /// The HTTP method to use.
    method: Option<Method>,
    /// The headers to send with the request.
    headers: Vec<String>,
    /// The body to send with the request.
    body: Option<String>,
    /// The proxy to use.
    proxy: Option<String>,
    /// Whether to follow redirects.
    redirects: bool,
    /// Whether to enable compression.
    compressed: bool,
    /// The network interface to use.
    interface: Option<String>,
}

/// What a `CurlBuilder` holds, as mathematical values.
pub struct RequestView {
    pub url: Seq<char>,
    pub method: Option<Method>,
    pub headers: Seq<Seq<char>>,
    pub body: Option<Seq<char>>,
    pub proxy: Option<Seq<char>>,
    pub redirects: bool,
    pub compressed: bool,
    pub interface: Option<Seq<char>>,
}

impl View for CurlBuilder {
    type V = RequestView;

    closed spec fn view(&self) -> RequestView {
        RequestView {
            url: self.url@,
            method: self.method,
            headers: self.headers.deep_view(),
            body: self.body.deep_view(),
            proxy: self.proxy.deep_view(),
            redirects: self.redirects,
            compressed: self.compressed,
            interface: self.interface.deep_view(),
        }
    }
}

/// The request for `url` with nothing else set.
pub open spec fn plain_request(url: Seq<char>) -> RequestView {
    RequestView {
        url,
        method: None,
        headers: Seq::empty(),
        body: None,
        proxy: None,
        redirects: false,
        compressed: false,
        interface: None,
    }
}

/// The name of a method on the command line; `GET` where none was set.
pub open spec fn method_name(method: Option<Method>) -> Seq<char> {
    match method {
        Some(Method::POST) => "POST"@,
        Some(Method::PUT) => "PUT"@,
        Some(Method::DELETE) => "DELETE"@,
        Some(Method::GET) => "GET"@,
        None => "GET"@,
    }
}

/// `flag` and `value`, where there is a value.
pub open spec fn with_value(flag: Seq<char>, value: Option<Seq<char>>) -> Seq<Seq<char>> {
    match value {
        Some(value) => seq![flag, value],
        None => Seq::empty(),
    }
}

/// `flag`, where it is switched on.
pub open spec fn switch(flag: Seq<char>, on: bool) -> Seq<Seq<char>> {
    if on {
        seq![flag]
    } else {
        Seq::empty()
    }
}

/// `flag` before each of `values`.
pub open spec fn with_each(flag: Seq<char>, values: Seq<Seq<char>>) -> Seq<Seq<char>>
    decreases values.len(),
{
    if values.len() == 0 {
        Seq::empty()
    } else {
        with_each(flag, values.drop_last()) + seq![flag, values.last()]
    }
}

/// The arguments that `curl` is run with for `request`. The output is
/// silent but for the response, and includes the response headers.
pub open spec fn arguments(request: RequestView) -> Seq<Seq<char>> {
    seq!["--silent"@, "--include"@] + with_value("--interface"@, request.interface) + switch(
        "-L"@,
        request.redirects,
    ) + seq!["-X"@, method_name(request.method)] + with_value("--proxy"@, request.proxy)
        + seq![request.url] + with_each("-H"@, request.headers) + with_value(
        "-d"@,
        request.body,
    ) + switch("--compressed"@, request.compressed)
}

/// Adds `arg` to `args`.
fn push_arg(args: &mut Vec<String>, arg: &str)
    ensures
        final(args).deep_view() == old(args).deep_view().push(arg@),
{
    args.push(arg.to_owned());
}

/// Adds `flag` and `value` to `args`, where there is a value.
fn push_with_value(args: &mut Vec<String>, flag: &str, value: &Option<String>)
    ensures
        final(args).deep_view() == old(args).deep_view() + with_value(flag@, value.deep_view()),
{
    if let Some(value) = value {
        push_arg(args, flag);
        push_arg(args, value.as_str());
    }
}

/// Adds `flag` to `args`, where it is switched on.
fn push_switch(args: &mut Vec<String>, flag: &str, on: bool)
    ensures
        final(args).deep_view() == old(args).deep_view() + switch(flag@, on),
{
    if on {
        push_arg(args, flag);
    }
}

impl Method {
    /// The name of the method on the command line.
    pub fn name(&self) -> (name: &'static str)
        ensures
            name@ == method_name(Some(*self)),
    {
        match self {
            Method::GET => "GET",
            Method::POST => "POST",
            Method::PUT => "PUT",
            Method::DELETE => "DELETE",
        }
    }
}

impl Curl {
    /// Starts a request for `url`.
    pub fn new(url: &str) -> (builder: CurlBuilder)
        ensures
            builder@ == plain_request(url@),
    {
        let builder = CurlBuilder {
            url: url.to_owned(),
            method: None,
            headers: Vec::new(),
            body: None,
            proxy: None,
            redirects: false,
            compressed: false,
            interface: None,
        };
        assert(builder.headers.deep_view() =~= Seq::<Seq<char>>::empty());
        builder
    }
}

impl CurlBuilder {
    /// Sets the HTTP method for the request.
    pub fn method(self, method: Method) -> (builder: Self)
        ensures
            builder@ == (RequestView { method: Some(method), ..self@ }),
    {
        let mut builder = self;
        builder.method = Some(method);
        builder
    }

    /// Adds a header to the request.
    pub fn set_header(self, header: &str) -> (builder: Self)
        ensures
            builder@ == (RequestView { headers: self@.headers.push(header@), ..self@ }),
    {
        let mut builder = self;
        builder.headers.push(header.to_owned());
        assert(builder.headers.deep_view() =~= self.headers.deep_view().push(header@));
        builder
    }

    /// Adds several headers to the request, in their order.
    pub fn set_headers(self, headers: Vec<&str>) -> (builder: Self)
        ensures
            builder@ == (RequestView { headers: self@.headers + headers.deep_view(), ..self@ }),
    {
        let mut builder = self;
        let mut i: usize = 0;
        while i < headers.len()
            invariant
                i <= headers.len(),
                builder@ == (RequestView {
                    headers: self@.headers + headers.deep_view().take(i as int),
                    ..self@
                }),
            decreases headers.len() - i,
        {
            let ghost so_far = builder.headers.deep_view();
            builder.headers.push(headers[i].to_owned());
            assert(builder.headers.deep_view() =~= so_far.push(headers[i as int]@));
            assert(so_far.push(headers[i as int]@) =~= self@.headers + headers.deep_view().take(
                i + 1,
            ));
            i += 1;
        }
        assert(headers.deep_view().take(i as int) =~= headers.deep_view());
        builder
    }

    /// Sets the body of the request.
    pub fn set_body(self, body: &str) -> (builder: Self)
        ensures
            builder@ == (RequestView { body: Some(body@), ..self@ }),
    {
        let mut builder = self;
        builder.body = Some(body.to_owned());
        builder
    }

    /// Sets the proxy for the request.
    pub fn set_proxy(self, proxy: &str) -> (builder: Self)
        ensures
            builder@ == (RequestView { proxy: Some(proxy@), ..self@ }),
    {
        let mut builder = self;
        builder.proxy = Some(proxy.to_owned());
        builder
    }

    /// Sets whether redirects are followed.
    pub fn redirects(self, r: bool) -> (builder: Self)
        ensures
            builder@ == (RequestView { redirects: r, ..self@ }),
    {
        let mut builder = self;
        builder.redirects = r;
        builder
    }

    /// Sets whether a compressed response is asked for.
    pub fn compressed(self, compress: bool) -> (builder: Self)
        ensures
            builder@ == (RequestView { compressed: compress, ..self@ }),
    {
        let mut builder = self;
        builder.compressed = compress;
        builder
    }

    /// Sets the network interface to send the request from.
    pub fn interface(self, interface: &str) -> (builder: Self)
        ensures
            builder@ == (RequestView { interface: Some(interface@), ..self@ }),
    {
        let mut builder = self;
        builder.interface = Some(interface.to_owned());
        builder
    }

    /// The arguments to run `curl` with for this request.
    pub fn args(&self) -> (args: Vec<String>)
        ensures
            args.deep_view() == arguments(self@),
    {
        let mut args: Vec<String> = Vec::new();
        push_arg(&mut args, "--silent");
        push_arg(&mut args, "--include");
        push_with_value(&mut args, "--interface", &self.interface);
        push_switch(&mut args, "-L", self.redirects);
        push_arg(&mut args, "-X");
        match &self.method {
            Some(method) => push_arg(&mut args, method.name()),
            None => push_arg(&mut args, "GET"),
        }
        push_with_value(&mut args, "--proxy", &self.proxy);
        push_arg(&mut args, self.url.as_str());
        let ghost before_headers = args.deep_view();
        let ghost headers = self.headers.deep_view();
        let mut i: usize = 0;
        while i < self.headers.len()
            invariant
                i <= self.headers.len(),
                headers == self.headers.deep_view(),
                args.deep_view() == before_headers + with_each("-H"@, headers.take(i as int)),
            decreases self.headers.len() - i,
        {
            push_arg(&mut args, "-H");
            push_arg(&mut args, self.headers[i].as_str());
            assert(headers.take(i + 1).drop_last() =~= headers.take(i as int));
            i += 1;
        }
        assert(headers.take(i as int) =~= headers);
        push_with_value(&mut args, "-d", &self.body);
        push_switch(&mut args, "--compressed", self.compressed);
        args
    }
}

} // verus!
