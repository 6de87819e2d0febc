//! Zobrist hashing keys.
use vstd::prelude::*;
use crate::defs::{PieceType, Player, Square, pt_idx, player_idx};

verus! {

/// One key per colored piece (type + 6 * side) and square.
pub const PIECES: [[u64; 64]; 12] = [
    [5064246057147341380u64, 4729436876694107414u64, 16242414923453249715u64, 5817192721650387730u64, 5574798771851187065u64, 10869712454645066007u64, 9722964158810873975u64, 4366628484348293017u64, 15555069676401186323u64, 13786593463249491545u64, 8232879396723080290u64, 4386704986168906193u64, 13119817298542421370u64, 3128334625601656048u64, 18391482338986893710u64, 342902269121618004u64, 14047776786920884128u64, 10034882622769598720u64, 1711036339385273866u64, 16462266369958405356u64, 2169960146047346397u64, 6880448313351179608u64, 16217248191790328623u64, 8596109765940515691u64, 11868772169818326358u64, 3250130631192853107u64, 17976416528375238049u64, 15615913686405555770u64, 15107321933458609983u64, 3535371277211902072u64, 6186742258627504597u64, 13832005110367727630u64, 9061082492242965516u64, 1155490529429044417u64, 11943983362214598139u64, 12055867266376680205u64, 14164150861849554249u64, 12865780615818798327u64, 6471066965338706310u64, 17975353217096611800u64, 7276861328714200030u64, 11044685366089767040u64, 13485436159837380752u64, 3944187318254044241u64, 6028850342822420085u64, 14987247266852748561u64, 15196343044791252741u64, 2756706161000387135u64, 16114607617483516883u64, 17165464012296346316u64, 15150677514518660803u64, 2354226494993944654u64, 16139480357792754299u64, 9430945489670059596u64, 9785061092452638768u64, 4904239022933597254u64, 3877752368622547290u64, 3530290289959243074u64, 8140762965835945146u64, 17647870225027580724u64, 4824456328175301800u64, 5210135365471014521u64, 13926298933584878918u64, 12095378523880594801u64],
    [11276871598355591860u64, 12757107540955489188u64, 13811606619932256740u64, 5170208613220873573u64, 16921713304404800490u64, 3040269072336327349u64, 17911110465620813642u64, 10742462449172953471u64, 4216384390121283492u64, 13082505486923257278u64, 8694976774145626634u64, 6926278736550621189u64, 2884228898150029520u64, 12010918629838547422u64, 16911441788612680307u64, 12064946827422731163u64, 14886553616437803833u64, 7763310264375786542u64, 12993335344218441445u64, 2306941633607945401u64, 18142411548301443370u64, 2217454864031874736u64, 1735375615871132661u64, 15220169799783530797u64, 9325763727935481135u64, 11071718655269407385u64, 12132292428603454629u64, 7077432033687112379u64, 12181963132258872193u64, 2247432377415861992u64, 17213552882429536166u64, 12092051792199171002u64, 13353739032771151877u64, 2104008779973232089u64, 11286898249694494021u64, 5819293207841775285u64, 6560303514254859371u64, 1602773769762505415u64, 13897043744567530404u64, 17690453467316542160u64, 7863562354216148073u64, 1126006068596682450u64, 14106263213521440927u64, 9944350070863995161u64, 17939371219025087596u64, 11999732681485622763u64, 16541018196550936953u64, 531198317592197906u64, 13709583290292446438u64, 10849116113595343493u64, 7657518597374015706u64, 15278275295324830837u64, 8870810396870064648u64, 8113703038849695850u64, 14240247374252176497u64, 3989676850124738476u64, 14150692391762085492u64, 1935539701442549776u64, 17160951146304306140u64, 15401519695751193734u64, 12848673637226297418u64, 11536883021823167086u64, 13491487529476524597u64, 5097022359715876602u64],
    [13334404525655809502u64, 9137833498744703217u64, 13829734194519394837u64, 4372327080812991456u64, 9007076224276577918u64, 5116220259660796721u64, 11222133560874721532u64, 2296836420034459070u64, 10981616314139606295u64, 869288055032002807u64, 4549692974107235608u64, 4894173121051528433u64, 2547956011904253750u64, 14471812357182799904u64, 5749090919964415215u64, 3346735172338344462u64, 4500504276958991218u64, 1214432632696231367u64, 4578604877610563676u64, 4635683023350861630u64, 3213956209331386716u64, 13287110949824038996u64, 5660720942867011819u64, 11901957499721403174u64, 2830486023760575692u64, 2308352248120653692u64, 16679741472934177633u64, 7063890183658705799u64, 7559252127754187014u64, 3391681709497732198u64, 12830224032937633580u64, 1104239624703885548u64, 2120157226160153907u64, 4844358672065538740u64, 7728280547478246462u64, 1961780374327522778u64, 16123125133969951538u64, 10616762154573071777u64, 10175148434542656753u64, 14461979211115671292u64, 3880867728110920721u64, 17443016209420850120u64, 8298066105346701397u64, 6668721441788791266u64, 6028787551690311620u64, 2310916345007206302u64, 3111170247605387142u64, 15189504006595188832u64, 12458747681219104340u64, 10194834732462800112u64, 289483858530679515u64, 14328058081626713457u64, 3735537060958479892u64, 15613076230475060496u64, 3440633381975168880u64, 11989776124778642511u64, 16471498053560419193u64, 6069503051473324665u64, 571342116945029662u64, 11516232740570762314u64, 8564885281031225783u64, 4017774611720804782u64, 14853036102854971918u64, 7728490553174120507u64],
    [423797107110478308u64, 3938258356856021533u64, 16404921808288920990u64, 10821060612238155032u64, 6038848546993469976u64, 10578362240900277763u64, 13100149326328444462u64, 3426649019693495430u64, 7269216809847168084u64, 9570421091741581912u64, 8490292795972165133u64, 393333085344108422u64, 11811208981184438913u64, 9444970712571972752u64, 2950441964473021057u64, 11269969638008050003u64, 5874288865646637224u64, 3672528998085830027u64, 1980419040673456529u64, 5889829307568926332u64, 1378852943687294380u64, 2877250153899306083u64, 10184914029066277433u64, 2812680004473548077u64, 14593919932013891860u64, 16298890862413315051u64, 777459796426653530u64, 7581958931634419436u64, 1377879008772099659u64, 7547648329831711024u64, 4099606191105009838u64, 10843670296560064533u64, 5967335554836909678u64, 12427999972884403273u64, 11311702135325000300u64, 8680894556297970086u64, 13483083754235712896u64, 14541871510889280021u64, 15700258041298286778u64, 10505390026728706513u64, 15586483957457604400u64, 4234301529837325101u64, 2699465479134346945u64, 8723487060544402352u64, 12326599919087033191u64, 18380925927109331467u64, 17515790538931322338u64, 18261132905685003664u64, 4122485875283281577u64, 7580802530630207805u64, 10674930415284039691u64, 3219783163355107874u64, 5104744802664224368u64, 9915404174958254260u64, 4120494300149251116u64, 11636880182913023353u64, 14900119522849196700u64, 5730796473700076099u64, 13952750899526480155u64, 2478541502230380143u64, 14078541917806950759u64, 7703039829532663760u64, 16243794864346443197u64, 1756611331768811537u64],
    [18291667619897952292u64, 14585144036471630641u64, 5128680868250715192u64, 17902269508877198309u64, 8900226014713167912u64, 15325781014212665702u64, 1289990349462443158u64, 10521379537089548488u64, 3959739984016555911u64, 3182723580232060003u64, 12547599348033111935u64, 16659044538469538090u64, 6128824549127769956u64, 2304625565849386452u64, 9313129280370654036u64, 12205791063481399462u64, 13580343571297474762u64, 284786164393733902u64, 8466533863611963149u64, 7326646080796829701u64, 9367913302677659631u64, 9616325017464369595u64, 17439595002471597131u64, 11719332107010319493u64, 16885859914753848256u64, 16770164388440736305u64, 10075940214060432111u64, 3108872944394270763u64, 17423337004746299459u64, 15648185928558815140u64, 8634762304099702307u64, 12890047260582482644u64, 12712112374504822923u64, 14142239052895491438u64, 5235087353374264645u64, 7562986661977384193u64, 11327653082468556736u64, 5204848216782970920u64, 14580149890934301777u64, 3862654795207017457u64, 13375920901782687224u64, 9765639381271820557u64, 2099961860098288438u64, 11965369127567258409u64, 11639418709489924281u64, 11679525585522390153u64, 9470506959892130679u64, 5296671580914239957u64, 7710689200094819393u64, 5734648041115886302u64, 15594582246635544400u64, 3711619763663736701u64, 17383769451270008880u64, 17017308118899980098u64, 6702382659066268033u64, 4131826769182083371u64, 11062513822218350751u64, 12536715926276923422u64, 13704328527955837218u64, 17793216283392723910u64, 9022222343184623955u64, 13137956379030775333u64, 18231642584283939944u64, 14320597433372730281u64],
    [16216592307853755829u64, 5044458784141358581u64, 8948928860187818385u64, 3550377882247318906u64, 17977016729704010104u64, 14392133864901728577u64, 16533792085101060638u64, 5921203181698416099u64, 10062276232526925516u64, 1719696477221526582u64, 14664642567057695940u64, 13672167432634313249u64, 8321982351954387572u64, 9942619735871198007u64, 9356248106560000490u64, 9177745006776009663u64, 16617119843890997475u64, 1890457031493351441u64, 1147384936916261373u64, 12458617402844707859u64, 18070614695960757429u64, 4246164906014963598u64, 6063433265239102474u64, 11904817468434302135u64, 6623305889253795916u64, 11750243264314412412u64, 1389889841855307521u64, 12559763274901420155u64, 11090996620587305829u64, 7070582959439212406u64, 12470579694263612883u64, 5290643479488837228u64, 12028818710913752707u64, 9272579212218381365u64, 9989953003115135666u64, 1035160822677701799u64, 9340663632879554942u64, 237519609412346777u64, 867635029885684165u64, 1798917741628429376u64, 1358920453836546390u64, 6887268659538612483u64, 10951204240758736201u64, 1586616323368613794u64, 16447488391288650887u64, 12289168386360643953u64, 4249480113434603871u64, 1881213709041888009u64, 15785742426522101435u64, 10575151219665791137u64, 16865351344138859531u64, 1416623068143253920u64, 7668548897153442172u64, 14528301270063464681u64, 13128709829975946022u64, 6508650401541044577u64, 4169195086550810290u64, 13200881499566119308u64, 7261949704445130684u64, 6818485556663116574u64, 6602431705526314998u64, 8206271608867408842u64, 11203143671720148313u64, 3237967141864295005u64],
    [4447281592555585186u64, 12989341177293108580u64, 11209393880030229703u64, 5232506221950273863u64, 7566449471401951185u64, 5444918840691273340u64, 17986487595402718071u64, 440224909323275570u64, 13705091704087784795u64, 13779637714652586751u64, 7622591199311542762u64, 7767518133704677955u64, 6962701314950423777u64, 5818033055846782189u64, 8117216137062155145u64, 9554241309310982898u64, 1825046054490432721u64, 14477098348794045176u64, 14942025501745961450u64, 10131830756622140915u64, 1801131966511734602u64, 8620368590325561410u64, 11804201709988650656u64, 1382080051274677425u64, 16892368198179600143u64, 1958012671699910444u64, 11255048647504728346u64, 5363139477319935889u64, 409534783960978663u64, 1937761708918036522u64, 6110846451919039066u64, 18023647041734463307u64, 14338681899406798486u64, 2746738874597027629u64, 3572438561437666206u64, 13008590052532207665u64, 15358320466087823719u64, 10298724604163666686u64, 194721168236939918u64, 1895716668099225471u64, 15009813180649855518u64, 7182234642193714815u64, 7874299029044416749u64, 5766219603500856473u64, 8290197653551113955u64, 18134299294819051440u64, 10057083924196736467u64, 15857214635718494298u64, 16301089162101511880u64, 13199677911562921895u64, 13075165475575495723u64, 9159759157824835646u64, 15206451079781638636u64, 13373689865646578631u64, 13118078069546443541u64, 9680942949304826471u64, 9815667144151897611u64, 1382875909224050818u64, 3047741799281615221u64, 13334345691511894348u64, 857845568772905863u64, 3758426999126635548u64, 1006556262001921657u64, 7971423808886378803u64],
    [10177051306282025492u64, 3313302603897368284u64, 17015702876384571029u64, 11454607696959143371u64, 5581187606058942743u64, 14695891848628315833u64, 5279345689627395032u64, 6368122187729410235u64, 18112315036978185712u64, 17426296670194239051u64, 17416513949393476897u64, 2840081549515304516u64, 317370998296862969u64, 6416823284708403368u64, 6725911834546997405u64, 16184077602697303208u64, 8164824119069594131u64, 8779488555820810780u64, 575293127000173397u64, 17005579606044620501u64, 16504360452253225638u64, 18010752275546686141u64, 5293818471327439489u64, 10077391016134161155u64, 12469799023111098291u64, 818365217174911057u64, 11996837361266405526u64, 4890351002785939993u64, 7603175377508885569u64, 14099482985951139099u64, 16158597414624919984u64, 4419771132542056714u64, 3869094191345409346u64, 11792234119686231009u64, 6469603580388808688u64, 11397487918903931046u64, 14852882834279886669u64, 11763881640981670092u64, 9389273819192431551u64, 17307280568767915102u64, 11588984662498911144u64, 7118774205672143521u64, 6018981680196700641u64, 16109518769733214892u64, 13226098092274556135u64, 1059144799928519111u64, 7020015108918270689u64, 15702411984220647027u64, 7575237873552882536u64, 11949888990999730966u64, 12971744155236482341u64, 15250304594485963245u64, 4371802513791944490u64, 9421538829657790702u64, 16306205574711490641u64, 469175544793193719u64, 6188981689885766588u64, 18332755654524586253u64, 14711808658903914144u64, 4048919030204605602u64, 9814269239160398838u64, 13852843471133008112u64, 6333687120473987848u64, 4755172746629336875u64],
    [12816262238285028624u64, 75832113754159950u64, 12257922701208357310u64, 7103816929942907093u64, 8138523335657407376u64, 9316668309210588993u64, 9489527488755422382u64, 5688827883386722894u64, 18327212638462209386u64, 10702970314709505589u64, 6896343380249563558u64, 5662100704470182958u64, 16763037104310750429u64, 2810217580831610751u64, 12637588107907928796u64, 16239539003355934434u64, 10897588034361261103u64, 1426790326386092889u64, 15143915690810066925u64, 557285130918269538u64, 8382096379836971975u64, 963222624809429893u64, 11118410508214644938u64, 12351826601732681529u64, 6157041561149703119u64, 2619636758982316518u64, 15611411143274959418u64, 3724825250489488369u64, 15031209377979647781u64, 12632991088620584982u64, 14847372602101956363u64, 7940736407707555797u64, 6251938659173648605u64, 5529211215069762818u64, 5316231419790382130u64, 16505140928067622419u64, 2180122292583928046u64, 602104720894901958u64, 6973199726230488591u64, 260450102468674572u64, 7584197770316825050u64, 1936918038797713803u64, 5103805567834415862u64, 2664097070328436787u64, 1450429909857161004u64, 11019820176275347420u64, 3432785511392725315u64, 16588631371081309844u64, 17505480264406191455u64, 5818596925873130533u64, 9333047916350642300u64, 493628626985006826u64, 8067215897434068651u64, 4359173667213193032u64, 15556942135500676002u64, 13919201745358559447u64, 17426321661324868426u64, 12317937027623393201u64, 1053593357206021439u64, 16720853306072743560u64, 8611214113592113613u64, 6457989982365392891u64, 14292172258309027530u64, 5621415812702561383u64],
    [14663307497777078289u64, 9598796677082219007u64, 14023002960764943275u64, 1040096135970433130u64, 7222110693322003268u64, 17822142572822355076u64, 16586147966720225853u64, 12070988425529057003u64, 14506087501691676296u64, 15914670832721488891u64, 12210546494288127218u64, 15086093880577611665u64, 13253187831854497071u64, 18128842847514606911u64, 11181333329794590112u64, 8233730984027414711u64, 9584476816334016091u64, 15281960624957931526u64, 5460418182988568056u64, 281694686969474682u64, 7879216703948889005u64, 2163715037627221177u64, 18184673571642093960u64, 1400901974943357261u64, 4855898719104556483u64, 9590188741014386975u64, 9869038305306676507u64, 4026105785005812836u64, 5960748121115246217u64, 3184099911257453797u64, 5543987714383500181u64, 13393184561102596096u64, 10126894377326839015u64, 197054248181691153u64, 16739734344929348343u64, 18422842824280675541u64, 4451378580027889701u64, 1186928285869136651u64, 11522101910954118103u64, 1502936448805804451u64, 2872379170162640911u64, 17840660817129601713u64, 10437132646543464829u64, 662382151864973678u64, 1947907019447768642u64, 7718133030258906550u64, 12179837384242224511u64, 3945054843540314774u64, 16192778482296794545u64, 9772996967237362060u64, 7235050224959696344u64, 18413861431146173678u64, 15471289409404459389u64, 5375223377639694898u64, 4793870164100495008u64, 805956771426194831u64, 18137673688836212378u64, 15641275414924816948u64, 2695728521670497982u64, 356899106391082481u64, 9879219607229058810u64, 17998356471007457432u64, 2604852860249383023u64, 11570128125490266241u64],
    [17942706973144746338u64, 17600649041686403773u64, 12141637872179102445u64, 2168852519993371579u64, 1364976697021030873u64, 13585433102490329136u64, 14916654824528591997u64, 8194914832830468774u64, 14273705659202856099u64, 2238908772037495949u64, 3220102751937997022u64, 13104587644566324492u64, 2872175282579439602u64, 7673836669149923871u64, 845631803986802914u64, 2946245927640096574u64, 1486933850457389679u64, 12025727243047341847u64, 5768862057359928055u64, 1106525291474952240u64, 2521361435572703442u64, 9346434558565912848u64, 882656822774759600u64, 6513866397585681489u64, 1464598353301026237u64, 11922675876133072113u64, 13069088940129365122u64, 16763884948531405065u64, 7916026522705520548u64, 5697286822288767174u64, 9513173025124657751u64, 15084730749132941552u64, 11167196472747335335u64, 5989700787440337168u64, 2460205732056728813u64, 8601934861515280444u64, 6247805358095173861u64, 1163725884554543677u64, 12621654178563728560u64, 2981135270319157397u64, 17398668455585835470u64, 4173023075493625475u64, 16011592610933993110u64, 3622844467747099584u64, 18361778872930303452u64, 17930746814138271218u64, 11809389249028847273u64, 815072078583800660u64, 6955049137344570u64, 9122151866310744614u64, 6391204539793627379u64, 7813724808172745115u64, 18446279125636462427u64, 5407209992344507339u64, 18011211632265741950u64, 13123004429542303337u64, 12531380870350471072u64, 13384888100050647795u64, 7787752441686398297u64, 3304390585705994625u64, 11358360467931117222u64, 2485431955453755538u64, 343239122118536307u64, 1138082001746735690u64],
    [6321283926748658411u64, 2883462670754877049u64, 14016719172613452037u64, 8502977866740091207u64, 623325838482706024u64, 11097763066552608699u64, 16545763108982474606u64, 12190277529230458370u64, 6492446571157004565u64, 12908887045607711198u64, 16301901349481712178u64, 13462799428312124760u64, 13873700365548094146u64, 3812391734023090093u64, 12927845806262659955u64, 10341636853925040453u64, 11780020591106609875u64, 7941484346025666710u64, 13957779096747435684u64, 13790293490154391351u64, 5149313944263370895u64, 3341208621564666937u64, 12786212050283636331u64, 15748873247638170745u64, 10474543654520910831u64, 5050347512932941331u64, 14830792289621566198u64, 18375916913673879326u64, 1121830856979838345u64, 11216483933600826414u64, 4954654610991540229u64, 13891565358518893097u64, 12971598104841621638u64, 10806979576311805465u64, 635403615203926564u64, 15681946428916751487u64, 13445121493351126664u64, 5149088198770345804u64, 6446927730556689912u64, 9640640790243478074u64, 4006289100667567228u64, 12149527373951431608u64, 8851162537938126027u64, 13155668872974502519u64, 1606843064624258809u64, 7085779675260053729u64, 12153130831550117197u64, 16066804543401259795u64, 3076780142885011676u64, 5126497161658521921u64, 9257561804949822013u64, 4210987184724923765u64, 992392987432395740u64, 6223472867174417346u64, 13074949784095580953u64, 13813375860740441866u64, 15385124078151642360u64, 4278754582446668791u64, 10721325366963302704u64, 3526652944492114890u64, 1037114991294124080u64, 9006004156910036875u64, 12493381069485723137u64, 3895206635732675835u64],
];

/// Key toggled when black is to move.
pub const SIDE: u64 = 6461195897457153168u64;

/// One key per castling rights value.
pub const CASTLE: [u64; 16] = [17328269001707947828u64, 4680623860356736976u64, 11414778272266013506u64, 5658367310703990373u64, 17943668738423225052u64, 3978452703536350917u64, 8892833575205728812u64, 12265736845396757163u64, 3762994773645167758u64, 18009429909178563451u64, 10357096944884500917u64, 12042299951242579714u64, 2194530143761782429u64, 8740631810193751901u64, 7089708021116158796u64, 15228280855245916839u64];

/// One key per en passant file.
pub const EP: [u64; 8] = [9100227298704075867u64, 13688988216357751560u64, 3452704831780684055u64, 5997625327656257778u64, 2780057783288545675u64, 8756090626933013134u64, 10312347710336746585u64, 6652499901387539816u64];

/// Namespace for Zobrist keys.
pub struct Zobrist;

impl Zobrist {
    /// Key of a piece of `side` and type `piece` on `sq`.
    pub fn piece(side: Player, piece: PieceType, sq: Square) -> (r: u64)
        requires
            piece != PieceType::NoPiece,
            0 <= sq < 64,
        ensures
            r == PIECES[pt_idx(piece) + player_idx(side) * 6][sq as int],
    {
        PIECES[piece.as_usize() + side.as_usize() * 6][sq as usize]
    }

    /// Key of the side to move.
    pub fn side() -> (r: u64)
        ensures
            r == SIDE,
    {
        SIDE
    }

    /// Key of a castling rights value.
    pub fn castle(castling: u8) -> (r: u64)
        requires
            castling < 16,
        ensures
            r == CASTLE[castling as int],
    {
        CASTLE[castling as usize]
    }

    /// Key of an en passant file.
    pub fn ep(ep_file: Square) -> (r: u64)
        requires
            0 <= ep_file < 8,
        ensures
            r == EP[ep_file as int],
    {
        EP[ep_file as usize]
    }
}

} // verus!
