<div class="flex flex-col h-full">
<div class="px-4 py-3 border-b border-border flex-shrink-0">
<h2 class="text-xs font-semibold text-muted-fg uppercase tracking-wider">Timeline</h2>
</div>
<!-- Search -->
<div class="px-3 pt-3 pb-2 flex-shrink-0">
<input type="text" id="sidebar-search-input" name="q" placeholder="Search notes..."
hx-get="/search"
hx-target="#timeline"
hx-swap="innerHTML"
hx-trigger="keyup changed delay:400ms, search"
hx-on::before-request="if (this.value === '') { event.detail.pathInfo.requestPath = '/memos-feed' }"
hx-on::after-request="htmx.trigger('body', 'searchUpdated')"
class="w-full px-3 py-1.5 bg-card border border-border rounded-lg text-sm text-foreground placeholder-muted-fg focus:outline-none focus:ring-2 focus:ring-accent-500 focus:border-transparent transition-all" />
</div>
<!-- Calendar -->
<div id="sidebar-calendar" class="px-3 py-2 flex-shrink-0"
hx-trigger="searchUpdated from:body"
hx-get="/calendar"
hx-target="this"
hx-swap="innerHTML"
hx-include="#sidebar-search-input, #selected-calendar-date">
<div class="flex items-center justify-between mb-2">
<h3 class="text-xs font-semibold text-muted-fg uppercase tracking-wider">{{ month_label }}</h3>
</div>
<div class="grid grid-cols-7 gap-0.5">
<div class="col-span-7 grid grid-cols-7 text-center text-xs text-muted-fg font-medium mb-0.5">
<span class="py-0.5">Mon</span><span class="py-0.5">Tue</span><span class="py-0.5">Wed</span><span class="py-0.5">Thu</span><span class="py-0.5">Fri</span><span class="py-0.5">Sat</span><span class="py-0.5">Sun</span>
</div>
{% for week in calendar_weeks %}
<div class="col-span-7 grid grid-cols-7 gap-0.5">
{% for day in week %}
{% if day.is_current_month and not day.is_future %}
<button hx-get="/search?date={{ day.date }}"
hx-target="#timeline"
hx-swap="innerHTML"
hx-on::after-request="_selectedCalendarDate='{{ day.date }}'; document.getElementById('selected-calendar-date').value = '{{ day.date }}'; htmx.trigger('body', 'searchUpdated')"
class="relative flex items-center justify-center w-full aspect-square text-[11px] leading-none transition-colors rounded-lg
{% if day.is_selected %} bg-accent-600 dark:bg-accent-100 text-white dark:text-accent-800 font-semibold shadow-sm outline outline-2 outline-white dark:outline-white
{% elif day.has_memos %} text-accent-600 dark:text-accent-800 bg-accent-50 dark:bg-accent-200/80 font-medium hover:bg-accent-100 dark:hover:bg-accent-300/80
{% else %} text-muted-fg hover:bg-muted dark:hover:bg-muted{% endif %}">
{{ day.day }}
</button>
{% elif day.is_current_month and day.is_future %}
<div class="flex items-center justify-center w-full aspect-square text-[11px] text-muted-fg/40 dark:text-muted-fg/30 select-none">{{ day.day }}</div>
{% else %}
<div class="w-full aspect-square"></div>
{% endif %}
{% endfor %}
</div>
{% endfor %}
</div>
</div>
<!-- Tags -->
<div class="flex-1 px-3 py-2 overflow-y-auto">
<div class="border-t border-border pt-3">
<h3 class="text-xs font-semibold text-muted-fg uppercase tracking-wider mb-2">Tags</h3>
<div class="flex flex-wrap gap-1.5">
{% for tag in tags %}
<button hx-get="/search?tag={{ tag.name }}"
hx-target="#timeline"
hx-swap="innerHTML"
class="inline-flex items-center gap-1 px-2 py-0.5 text-xs rounded-md bg-accent-50 dark:bg-accent-900/30 text-accent-600 dark:text-accent-400 hover:bg-accent-100 dark:hover:bg-accent-900/50 transition-colors">
#{{ tag.name }}
<span class="text-xs text-accent-400 dark:text-accent-500">{{ tag.count }}</span>
</button>
{% endfor %}
{% if not tags %}
<p class="text-xs text-muted-fg">No tags yet. Use #tag in your notes.</p>
{% endif %}
</div>
<p class="text-xs text-muted-fg text-center mt-4">MinimaMemosa · Write freely</p>
</div>
</div>
</div>