//! The address that the stream server listens on.
use crate::tcp::stream::hex_digit;
use crate::text::{decimal, joined, same_text};
use vstd::prelude::*;
use vstd::string::*;

verus! {

/// Why an address of this host could not be told.
#[derive(Debug)]
pub enum ResolveError {
    /// No network interface has an address of the kind asked for.
    LocalIpAddressNotFound,
    /// The system refused to answer.
    StrategyError(String),
    /// There is no way to ask on this platform.
    PlatformNotSupported(String),
}

/// What a `ResolveError` holds.
pub enum ResolveErrorView {
    /// No network interface has an address of the kind asked for.
    LocalIpAddressNotFound,
    /// The system refused to answer.
    StrategyError(Seq<char>),
    /// There is no way to ask on this platform.
    PlatformNotSupported(Seq<char>),
}

impl View for ResolveError {
    type V = ResolveErrorView;

    open spec fn view(&self) -> ResolveErrorView {
        match self {
            ResolveError::LocalIpAddressNotFound => ResolveErrorView::LocalIpAddressNotFound,
            ResolveError::StrategyError(text) => ResolveErrorView::StrategyError(text@),
            ResolveError::PlatformNotSupported(name) => ResolveErrorView::PlatformNotSupported(
                name@,
            ),
        }
    }
}

/// The words for a `ResolveError`.
pub open spec fn resolve_error_text(e: ResolveErrorView) -> Seq<char> {
    match e {
        ResolveErrorView::LocalIpAddressNotFound =>
            "The Local IP Address wasn't available in the network interfaces list/table"@,
        ResolveErrorView::StrategyError(text) =>
            "An error occurred executing the underlying strategy error.\n"@ + text,
        ResolveErrorView::PlatformNotSupported(name) => "The current platform: `"@ + name
            + "`, is not supported"@,
    }
}

impl ResolveError {
    /// The error in words.
    pub fn text(&self) -> (r: String)
        ensures
            r@ == resolve_error_text(self@),
    {
        match self {
            ResolveError::LocalIpAddressNotFound =>
                "The Local IP Address wasn't available in the network interfaces list/table".to_owned(),
            ResolveError::StrategyError(text) => joined(
                "An error occurred executing the underlying strategy error.\n",
                text.as_str(),
            ),
            ResolveError::PlatformNotSupported(name) => {
                let mut r = joined("The current platform: `", name.as_str());
                r.append("`, is not supported");
                r
            },
        }
    }
}

/// Why the stream server could not be made.
#[derive(Debug)]
pub enum PipelineError {
    /// A reason in words.
    Generic(String),
    /// The network interfaces could not be listed.
    LocalIpAddress(ResolveError),
}

/// What a `PipelineError` holds.
pub enum PipelineErrorView {
    /// A reason in words.
    Generic(Seq<char>),
    /// The network interfaces could not be listed.
    LocalIpAddress(ResolveErrorView),
}

impl View for PipelineError {
    type V = PipelineErrorView;

    open spec fn view(&self) -> PipelineErrorView {
        match self {
            PipelineError::Generic(text) => PipelineErrorView::Generic(text@),
            PipelineError::LocalIpAddress(e) => PipelineErrorView::LocalIpAddress(e@),
        }
    }
}

/// What the answer to a question for an address holds.
pub open spec fn answer_view(r: Result<String, ResolveError>) -> Result<
    Seq<char>,
    ResolveErrorView,
> {
    match r {
        Ok(ip) => Ok(ip@),
        Err(e) => Err(e@),
    }
}

/// What the choice of an address holds.
pub open spec fn choice_view(r: Result<String, PipelineError>) -> Result<
    Seq<char>,
    PipelineErrorView,
> {
    match r {
        Ok(ip) => Ok(ip@),
        Err(e) => Err(e@),
    }
}

/// Tells the addresses of this host.
pub trait IpResolver {
    /// The IPv4 address of the host.
    fn local_ip(&self) -> Result<String, ResolveError>;

    /// The IPv6 address of the host.
    fn local_ipv6(&self) -> Result<String, ResolveError>;
}

/// Four numbers with dots between them.
pub open spec fn dotted(a: u8, b: u8, c: u8, d: u8) -> Seq<char> {
    decimal(a as nat) + "."@ + decimal(b as nat) + "."@ + decimal(c as nat) + "."@ + decimal(
        d as nat,
    )
}

/// The text of an IPv4 address.
pub open spec fn ipv4_text(s: Seq<char>) -> bool {
    exists|a: u8, b: u8, c: u8, d: u8| s == #[trigger] dotted(a, b, c, d)
}

/// The text has the look of an IPv6 address: hexadecimal digits, at least two
/// colons, and dots where it holds an IPv4 address.
pub open spec fn ipv6_look(s: Seq<char>) -> bool {
    &&& s.len() <= 39
    &&& forall|i: int|
        0 <= i < s.len() ==> hex_digit(#[trigger] s[i]) || s[i] == ':' || s[i] == '.'
    &&& exists|i: int, j: int|
        0 <= i < j < s.len() && #[trigger] s[i] == ':' && #[trigger] s[j] == ':'
}

/// The text is an IPv4 address or has the look of an IPv6 address.
pub open spec fn ip_look(s: Seq<char>) -> bool {
    ipv4_text(s) || ipv6_look(s)
}

/// The system may answer so when it is asked for the IPv4 address of this host.
pub closed spec fn system_may_say_ipv4(r: Result<String, ResolveError>) -> bool {
    call_ensures(system_ip, (), r)
}

/// The system may answer so when it is asked for the IPv6 address of this host.
pub closed spec fn system_may_say_ipv6(r: Result<String, ResolveError>) -> bool {
    call_ensures(system_ipv6, (), r)
}

/// The system may answer so when it is asked for its network interfaces.
pub closed spec fn system_may_list(r: Result<Vec<(String, String)>, ResolveError>) -> bool {
    call_ensures(system_interfaces, (), r)
}

/// Every interface that is listed has an address.
pub open spec fn addresses_listed(interfaces: Result<Vec<(String, String)>, ResolveError>) -> bool {
    interfaces matches Ok(list) ==> forall|i: int|
        0 <= i < list@.len() ==> ip_look((#[trigger] list@[i]).1@)
}

/// Asks the system for the addresses of this host.
pub struct DefaultIpResolver;

impl IpResolver for DefaultIpResolver {
    fn local_ip(&self) -> (r: Result<String, ResolveError>)
        ensures
            system_may_say_ipv4(r),
            r matches Ok(ip) ==> ipv4_text(ip@),
    {
        system_ip()
    }

    fn local_ipv6(&self) -> (r: Result<String, ResolveError>)
        ensures
            system_may_say_ipv6(r),
            r matches Ok(ip) ==> ipv6_look(ip@),
    {
        system_ipv6()
    }
}

/// Calls `local_ip_address::local_ip`. Whether it answers, and with which address,
/// rests on the machine; the address is an IPv4 address.
#[verifier::external_body]
fn system_ip() -> (r: Result<String, ResolveError>)
    ensures
        r matches Ok(ip) ==> ipv4_text(ip@),
{
    match local_ip_address::local_ip() {
        Ok(ip) => Ok(ip.to_string()),
        Err(local_ip_address::Error::LocalIpAddressNotFound) => Err(
            ResolveError::LocalIpAddressNotFound,
        ),
        Err(local_ip_address::Error::StrategyError(text)) => Err(ResolveError::StrategyError(text)),
        Err(local_ip_address::Error::PlatformNotSupported(name)) => Err(
            ResolveError::PlatformNotSupported(name),
        ),
    }
}

/// Calls `local_ip_address::local_ipv6`. Whether it answers, and with which address,
/// rests on the machine; the address is an IPv6 address, of whose text only the
/// look is stated.
#[verifier::external_body]
fn system_ipv6() -> (r: Result<String, ResolveError>)
    ensures
        r matches Ok(ip) ==> ipv6_look(ip@),
{
    match local_ip_address::local_ipv6() {
        Ok(ip) => Ok(ip.to_string()),
        Err(local_ip_address::Error::LocalIpAddressNotFound) => Err(
            ResolveError::LocalIpAddressNotFound,
        ),
        Err(local_ip_address::Error::StrategyError(text)) => Err(ResolveError::StrategyError(text)),
        Err(local_ip_address::Error::PlatformNotSupported(name)) => Err(
            ResolveError::PlatformNotSupported(name),
        ),
    }
}

/// Calls `local_ip_address::list_afinet_netifas`: the names of network interfaces,
/// each with an IPv4 or an IPv6 address. Which they are rests on the machine.
#[verifier::external_body]
fn system_interfaces() -> (r: Result<Vec<(String, String)>, ResolveError>)
    ensures
        addresses_listed(r),
{
    match local_ip_address::list_afinet_netifas() {
        Ok(list) => Ok(list.into_iter().map(|(name, ip)| (name, ip.to_string())).collect()),
        Err(local_ip_address::Error::LocalIpAddressNotFound) => Err(
            ResolveError::LocalIpAddressNotFound,
        ),
        Err(local_ip_address::Error::StrategyError(text)) => Err(ResolveError::StrategyError(text)),
        Err(local_ip_address::Error::PlatformNotSupported(name)) => Err(
            ResolveError::PlatformNotSupported(name),
        ),
    }
}

/// The address that a list of network interfaces gives last for a name.
pub open spec fn listed_address(interfaces: Seq<(String, String)>, name: Seq<char>) -> Option<
    Seq<char>,
>
    decreases interfaces.len(),
{
    if interfaces.len() == 0 {
        None
    } else if interfaces.last().0@ == name {
        Some(interfaces.last().1@)
    } else {
        listed_address(interfaces.drop_last(), name)
    }
}

/// The address of the interface of the given name: the last that the list gives
/// for it.
pub open spec fn interface_choice(
    name: Seq<char>,
    interfaces: Result<Vec<(String, String)>, ResolveError>,
) -> Result<Seq<char>, PipelineErrorView> {
    match interfaces {
        Ok(list) => match listed_address(list@, name) {
            Some(ip) => Ok(ip),
            None => Err(PipelineErrorView::Generic("Interface not found: "@ + name)),
        },
        Err(e) => Err(PipelineErrorView::LocalIpAddress(e@)),
    }
}

/// The address of the interface of the given name.
pub fn interface_address(
    name: &str,
    interfaces: Result<Vec<(String, String)>, ResolveError>,
) -> (r: Result<String, PipelineError>)
    ensures
        choice_view(r) == interface_choice(name@, interfaces),
{
    let list = match interfaces {
        Ok(list) => list,
        Err(e) => {
            return Err(PipelineError::LocalIpAddress(e));
        },
    };
    let mut n: usize = list.len();
    assert(list@.take(n as int) =~= list@);
    while n > 0
        invariant
            n <= list.len(),
            interfaces == Ok::<_, ResolveError>(list),
            listed_address(list@, name@) == listed_address(list@.take(n as int), name@),
        decreases n,
    {
        assert(list@.take(n as int).drop_last() =~= list@.take(n - 1));
        n = n - 1;
        if same_text(list[n].0.as_str(), name) {
            return Ok(list[n].1.as_str().to_owned());
        }
    }
    Err(PipelineError::Generic(joined("Interface not found: ", name)))
}

/// The answer for this host: the IPv4 address, or the IPv6 address where the host
/// has no IPv4 address.
pub open spec fn first_answer(
    v4: Result<Seq<char>, ResolveErrorView>,
    v6: Result<Seq<char>, ResolveErrorView>,
) -> Result<Seq<char>, ResolveErrorView> {
    if v4 == Err::<Seq<char>, _>(ResolveErrorView::LocalIpAddressNotFound) {
        v6
    } else {
        v4
    }
}

/// The address for an answer. The loopback address stands in only where the host
/// has no address at all; any other failure is reported, so that a misconfigured
/// host fails at once.
pub open spec fn answer_choice(answer: Result<Seq<char>, ResolveErrorView>) -> Result<
    Seq<char>,
    PipelineErrorView,
> {
    match answer {
        Ok(ip) => Ok(ip),
        Err(ResolveErrorView::LocalIpAddressNotFound) => Ok("127.0.0.1"@),
        Err(e) => Err(
            PipelineErrorView::Generic(
                "Failed to resolve local IP address: "@ + resolve_error_text(e),
            ),
        ),
    }
}

/// The address for an answer.
pub fn answered_address(answer: Result<String, ResolveError>) -> (r: Result<String, PipelineError>)
    ensures
        choice_view(r) == answer_choice(answer_view(answer)),
{
    match answer {
        Ok(ip) => Ok(ip),
        Err(ResolveError::LocalIpAddressNotFound) => Ok("127.0.0.1".to_owned()),
        Err(e) => {
            let text = e.text();
            Err(PipelineError::Generic(
                joined("Failed to resolve local IP address: ", text.as_str()),
            ))
        },
    }
}

/// A resolver may answer `v4` and `v6`; it is asked for an IPv6 address only where
/// it has no IPv4 address.
pub open spec fn may_answer<R: IpResolver>(
    resolver: &R,
    v4: Result<String, ResolveError>,
    v6: Result<String, ResolveError>,
) -> bool {
    &&& call_ensures(R::local_ip, (resolver,), v4)
    &&& v4 matches Err(ResolveError::LocalIpAddressNotFound) ==> call_ensures(
        R::local_ipv6,
        (resolver,),
        v6,
    )
}

/// The address for the answers of a resolver.
pub open spec fn host_choice(
    v4: Result<String, ResolveError>,
    v6: Result<String, ResolveError>,
) -> Result<Seq<char>, PipelineErrorView> {
    answer_choice(first_answer(answer_view(v4), answer_view(v6)))
}

/// The address that a resolver gives for this host.
pub fn host_address<R: IpResolver>(resolver: &R) -> (r: Result<String, PipelineError>)
    ensures
        exists|v4: Result<String, ResolveError>, v6: Result<String, ResolveError>| #[trigger]
            may_answer(resolver, v4, v6) && choice_view(r) == host_choice(v4, v6),
{
    let v4 = resolver.local_ip();
    let ghost a = v4;
    let answer = match v4 {
        Err(ResolveError::LocalIpAddressNotFound) => resolver.local_ipv6(),
        other => other,
    };
    assert(may_answer(resolver, a, answer));
    answered_address(answer)
}

/// The address to listen on may come out as `choice`: that of the prescribed
/// interface, whatever interfaces the system lists, each with an address, or that for
/// the answers that the resolver may give.
pub open spec fn may_resolve<R: IpResolver>(
    interface: Option<String>,
    resolver: &R,
    choice: Result<Seq<char>, PipelineErrorView>,
) -> bool {
    match interface {
        Some(name) => exists|interfaces: Result<Vec<(String, String)>, ResolveError>|
            system_may_list(interfaces) && addresses_listed(interfaces) && choice
                == #[trigger] interface_choice(name@, interfaces),
        None => exists|v4: Result<String, ResolveError>, v6: Result<String, ResolveError>|
            #[trigger] may_answer(resolver, v4, v6) && choice == host_choice(v4, v6),
    }
}

/// The address to listen on: that of the prescribed interface, or that which the
/// resolver gives for this host.
pub fn listen_address<R: IpResolver>(interface: &Option<String>, resolver: &R) -> (r: Result<
    String,
    PipelineError,
>)
    ensures
        may_resolve(*interface, resolver, choice_view(r)),
{
    match interface {
        Some(name) => {
            let interfaces = system_interfaces();
            interface_address(name.as_str(), interfaces)
        },
        None => host_address(resolver),
    }
}

/// The server falls back to the loopback address only where the host has neither an
/// IPv4 nor an IPv6 address: any other failure of the resolver is reported.
pub proof fn loopback_only_without_an_address(
    v4: Result<Seq<char>, ResolveErrorView>,
    v6: Result<Seq<char>, ResolveErrorView>,
)
    ensures
        answer_choice(first_answer(v4, v6)) is Err <==> (first_answer(v4, v6) matches Err(e) && e
            != ResolveErrorView::LocalIpAddressNotFound),
        answer_choice(first_answer(v4, v6)) == Ok::<_, PipelineErrorView>("127.0.0.1"@) ==> {
            ||| v4 == Err::<Seq<char>, _>(ResolveErrorView::LocalIpAddressNotFound) && v6 == Err::<
                Seq<char>,
                _,
            >(ResolveErrorView::LocalIpAddressNotFound)
            ||| first_answer(v4, v6) == Ok::<_, ResolveErrorView>("127.0.0.1"@)
        },
        v4 matches Ok(ip) ==> answer_choice(first_answer(v4, v6)) == Ok::<_, PipelineErrorView>(ip),
{
}

/// The address of an interface is one that the list gives for its name.
pub proof fn interface_address_is_listed(interfaces: Seq<(String, String)>, name: Seq<char>)
    ensures
        match listed_address(interfaces, name) {
            Some(ip) => exists|i: int|
                0 <= i < interfaces.len() && (#[trigger] interfaces[i]).0@ == name
                    && interfaces[i].1@ == ip,
            None => forall|i: int|
                0 <= i < interfaces.len() ==> (#[trigger] interfaces[i]).0@ != name,
        },
    decreases interfaces.len(),
{
    if interfaces.len() > 0 {
        let rest = interfaces.drop_last();
        interface_address_is_listed(rest, name);
        assert(interfaces[interfaces.len() - 1] == interfaces.last());
        match listed_address(rest, name) {
            Some(ip) => {
                let i = choose|i: int|
                    0 <= i < rest.len() && (#[trigger] rest[i]).0@ == name && rest[i].1@ == ip;
                assert(interfaces[i] == rest[i]);
            },
            None => {
                assert forall|i: int| 0 <= i < rest.len() implies (#[trigger] interfaces[i]).0@
                    != name by {
                    assert(interfaces[i] == rest[i]);
                }
            },
        }
    }
}

/// A resolver gives nothing but addresses.
pub open spec fn gives_addresses<R: IpResolver>(resolver: &R) -> bool {
    &&& forall|v4: Result<String, ResolveError>| #[trigger]
        call_ensures(R::local_ip, (resolver,), v4) ==> (v4 matches Ok(ip) ==> ip_look(ip@))
    &&& forall|v6: Result<String, ResolveError>| #[trigger]
        call_ensures(R::local_ipv6, (resolver,), v6) ==> (v6 matches Ok(ip) ==> ip_look(ip@))
}

/// What is chosen to listen on is an address: always for a prescribed interface, and
/// for this host where the resolver gives nothing but addresses.
pub proof fn choice_is_an_address<R: IpResolver>(
    interface: Option<String>,
    resolver: &R,
    choice: Result<Seq<char>, PipelineErrorView>,
)
    requires
        may_resolve(interface, resolver, choice),
        interface is Some || gives_addresses(resolver),
    ensures
        choice matches Ok(ip) ==> ip_look(ip),
{
    match interface {
        Some(name) => {
            let interfaces = choose|interfaces: Result<Vec<(String, String)>, ResolveError>|
                system_may_list(interfaces) && addresses_listed(interfaces) && choice
                    == #[trigger] interface_choice(name@, interfaces);
            if interfaces is Ok {
                interface_address_is_listed(interfaces->Ok_0@, name@);
            }
        },
        None => {
            let (v4, v6) = choose|
                v4: Result<String, ResolveError>,
                v6: Result<String, ResolveError>,
            | #[trigger]
                may_answer(resolver, v4, v6) && choice == host_choice(v4, v6);
            loopback_is_an_address();
        },
    }
}

/// The loopback address is an IPv4 address.
proof fn loopback_is_an_address()
    ensures
        ipv4_text("127.0.0.1"@),
{
    reveal_strlit("127.0.0.1");
    reveal_strlit(".");
    reveal_with_fuel(decimal, 3);
    assert(dotted(127, 0, 0, 1) =~= "127.0.0.1"@);
}

/// Where a list gives several addresses for a name, the last one counts; where it
/// gives none, the interface is reported by its name.
pub proof fn last_listed_address_counts(list: Vec<(String, String)>, name: Seq<char>, i: int)
    ensures
        0 <= i < list@.len() && list@[i].0@ == name && (forall|j: int|
            i < j < list@.len() ==> (#[trigger] list@[j]).0@ != name) ==> interface_choice(
            name,
            Ok(list),
        ) == Ok::<_, PipelineErrorView>(list@[i].1@),
        (forall|j: int| 0 <= j < list@.len() ==> (#[trigger] list@[j]).0@ != name)
            ==> interface_choice(name, Ok(list)) == Err::<Seq<char>, _>(
            PipelineErrorView::Generic("Interface not found: "@ + name),
        ),
{
    lemma_last_listed(list@, name, i);
    interface_address_is_listed(list@, name);
}

/// Where a list gives several addresses for a name, the last one counts.
proof fn lemma_last_listed(list: Seq<(String, String)>, name: Seq<char>, i: int)
    ensures
        0 <= i < list.len() && list[i].0@ == name && (forall|j: int|
            i < j < list.len() ==> (#[trigger] list[j]).0@ != name) ==> listed_address(list, name)
            == Some(list[i].1@),
    decreases list.len(),
{
    if 0 <= i < list.len() - 1 && list[i].0@ == name && (forall|j: int|
        i < j < list.len() ==> (#[trigger] list[j]).0@ != name) {
        let rest = list.drop_last();
        assert(list[list.len() - 1].0@ != name);
        assert forall|j: int| i < j < rest.len() implies (#[trigger] rest[j]).0@ != name by {
            assert(rest[j] == list[j]);
        }
        assert(rest[i] == list[i]);
        lemma_last_listed(rest, name, i);
    }
}

/// The IPv4 address is taken where there is one. Where there is none, it is the IPv6
/// address, and where there is neither the loopback address. Any other failure is
/// reported with its own words, whichever of the two answers it is.
pub proof fn addresses_are_chosen_so(
    v4: Result<String, ResolveError>,
    v6: Result<String, ResolveError>,
)
    ensures
        v4 matches Ok(ip) ==> host_choice(v4, v6) == Ok::<_, PipelineErrorView>(ip@),
        v4 matches Err(ResolveError::StrategyError(e)) ==> host_choice(v4, v6) == Err::<
            Seq<char>,
            _,
        >(
            PipelineErrorView::Generic(
                "Failed to resolve local IP address: "@
                    + ("An error occurred executing the underlying strategy error.\n"@ + e@),
            ),
        ),
        v4 matches Err(ResolveError::PlatformNotSupported(e)) ==> host_choice(v4, v6) == Err::<
            Seq<char>,
            _,
        >(
            PipelineErrorView::Generic(
                "Failed to resolve local IP address: "@ + ("The current platform: `"@ + e@
                    + "`, is not supported"@),
            ),
        ),
        v4 matches Err(ResolveError::LocalIpAddressNotFound) ==> {
            &&& v6 matches Ok(ip) ==> host_choice(v4, v6) == Ok::<_, PipelineErrorView>(ip@)
            &&& v6 matches Err(ResolveError::LocalIpAddressNotFound) ==> host_choice(v4, v6) == Ok::<
                _,
                PipelineErrorView,
            >("127.0.0.1"@)
            &&& v6 matches Err(ResolveError::StrategyError(e)) ==> host_choice(v4, v6) == Err::<
                Seq<char>,
                _,
            >(
                PipelineErrorView::Generic(
                    "Failed to resolve local IP address: "@
                        + ("An error occurred executing the underlying strategy error.\n"@ + e@),
                ),
            )
            &&& v6 matches Err(ResolveError::PlatformNotSupported(e)) ==> host_choice(v4, v6) == Err::<
                Seq<char>,
                _,
            >(
                PipelineErrorView::Generic(
                    "Failed to resolve local IP address: "@ + ("The current platform: `"@ + e@
                        + "`, is not supported"@),
                ),
            )
        },
{
}

/// Where no interface is prescribed, what a resolver always answers decides where the
/// server listens: its IPv4 address; where it never has one, its IPv6 address; where it
/// has neither, the loopback address. A resolver that fails otherwise is reported.
pub proof fn resolver_decides_without_an_interface<R: IpResolver>(
    interface: &Option<String>,
    resolver: &R,
    r: Result<String, PipelineError>,
    v4: Result<String, ResolveError>,
    v6: Result<String, ResolveError>,
)
    requires
        call_ensures(listen_address::<R>, (interface, resolver), r),
        *interface is None,
        forall|a: Result<String, ResolveError>| #[trigger]
            call_ensures(R::local_ip, (resolver,), a) ==> a == v4,
        forall|a: Result<String, ResolveError>| #[trigger]
            call_ensures(R::local_ipv6, (resolver,), a) ==> a == v6,
    ensures
        v4 matches Ok(ip) ==> choice_view(r) == Ok::<_, PipelineErrorView>(ip@),
        v4 matches Err(ResolveError::LocalIpAddressNotFound) ==> {
            &&& v6 matches Ok(ip) ==> choice_view(r) == Ok::<_, PipelineErrorView>(ip@)
            &&& v6 matches Err(ResolveError::LocalIpAddressNotFound) ==> choice_view(r) == Ok::<
                _,
                PipelineErrorView,
            >("127.0.0.1"@)
            &&& v6 matches Err(e) ==> !(e is LocalIpAddressNotFound) ==> r is Err
        },
        v4 matches Err(e) ==> !(e is LocalIpAddressNotFound) ==> r is Err,
{
    let (a, b) = choose|a: Result<String, ResolveError>, b: Result<String, ResolveError>|
        #[trigger]
        may_answer(resolver, a, b) && choice_view(r) == host_choice(a, b);
    assert(a == v4);
}

/// Where an interface is prescribed, it decides where the server listens, whatever the
/// resolver would say: the address is one that the system lists for that interface, and
/// where the system lists none, or fails to list any, that is reported.
pub proof fn prescribed_interface_decides<R: IpResolver>(
    interface: &Option<String>,
    resolver: &R,
    r: Result<String, PipelineError>,
    name: String,
) -> (interfaces: Result<Vec<(String, String)>, ResolveError>)
    requires
        call_ensures(listen_address::<R>, (interface, resolver), r),
        *interface == Some(name),
    ensures
        system_may_list(interfaces),
        r matches Ok(ip) ==> interfaces is Ok && exists|i: int|
            0 <= i < interfaces->Ok_0@.len() && (#[trigger] interfaces->Ok_0@[i]).0@ == name@
                && interfaces->Ok_0@[i].1@ == ip@,
        r is Err && interfaces is Ok ==> r->Err_0@ == PipelineErrorView::Generic(
            "Interface not found: "@ + name@,
        ) && forall|i: int|
            0 <= i < interfaces->Ok_0@.len() ==> (#[trigger] interfaces->Ok_0@[i]).0@ != name@,
        interfaces matches Err(e) ==> r is Err && r->Err_0@ == PipelineErrorView::LocalIpAddress(
            e@,
        ),
{
    let interfaces = choose|interfaces: Result<Vec<(String, String)>, ResolveError>|
        system_may_list(interfaces) && addresses_listed(interfaces) && choice_view(r)
            == #[trigger] interface_choice(name@, interfaces);
    if interfaces is Ok {
        interface_address_is_listed(interfaces->Ok_0@, name@);
    }
    interfaces
}

/// An error is told in the words for its kind, with what the system said.
pub proof fn errors_are_told_in_words(e: &ResolveError, r: String)
    requires
        call_ensures(ResolveError::text, (e,), r),
    ensures
        *e is LocalIpAddressNotFound ==> r@
            == "The Local IP Address wasn't available in the network interfaces list/table"@,
        *e matches ResolveError::StrategyError(text) ==> r@
            == "An error occurred executing the underlying strategy error.\n"@ + text@,
        *e matches ResolveError::PlatformNotSupported(name) ==> r@ == "The current platform: `"@
            + name@ + "`, is not supported"@,
{
}

} // verus!
